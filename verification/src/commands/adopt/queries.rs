//! What Git is asked about a repository before it is converted.
use vstd::prelude::*;
use crate::bytes::{
    copied, has_byte, has_prefix, is_lit, joined, lemma_views_push, lit, non_empty, opt_view,
    prefixed, same, split, split_non_empty, split_on, starts_with, strip_prefix, trim_line_ends,
    views, without_line_ends, without_prefix, CR, LF, NUL,
};
use crate::commands::adopt::evidence::{
    ByteSnapshot, GitEntry, git_views, HeadProof, HeadView, SnapshotBytes,
};
use crate::error::{
    bytes_outcome, decision_error, detailed, failure, list_outcome, needs_decision, plain, usage,
    usage_error, ErrorView, GroveError, Result,
};
use crate::fsx::directory::{HeldDirectory, HeldView};
use crate::fsx::files::{
    ask_bytes, ask_found, bytes_step, found_step, FileRequest, FileSession, FileSystem,
};
use crate::fsx::held::FileIdentity;
use crate::git::config::Outcome;
use crate::git::query::{excludes_source, map_refspec, mapped, opt_outcome};
use crate::git::runner::{
    args1, args2, args3, args4, invoke, lits, step, GitOutput, GitRunner, Invocation,
    InvocationView, OutputView, Session,
};
use crate::order::{sort_all, sorted};
use crate::path::{child, file_name, is_within, join_word, last_name, within};
use crate::text::{
    decimal, escape, escaped, joined_text, lemma_texts_push, lossy, lossy_text, status_number,
    text, texts,
};

verus! {

broadcast use {lemma_views_push, lemma_texts_push};

/// A Git child that runs in a directory and takes no optional locks.
pub open spec fn quiet(cwd: Seq<u8>, args: Seq<Seq<u8>>) -> InvocationView {
    InvocationView {
        cwd: Some(cwd),
        environment: Seq::empty().push((lit("GIT_OPTIONAL_LOCKS"), lit("0"))),
        ..invoke(args)
    }
}

pub(crate) fn quietly(cwd: &[u8]) -> (r: Invocation)
    ensures
        r@ == quiet(cwd@, Seq::empty()),
{
    Invocation::new().cwd(cwd).env("GIT_OPTIONAL_LOCKS", "0")
}

pub open spec fn git_failure(action: Seq<char>, out: OutputView) -> ErrorView {
    detailed(
        failure("git failed to "@ + action + " (exit "@ + decimal(out.status) + ")"@),
        escape(out.stderr),
    )
}

pub(crate) fn git_error(action: &str, output: &GitOutput) -> (r: GroveError)
    ensures
        r@ == git_failure(action@, output@),
{
    GroveError::failure(
        text("git failed to ").concat(action).concat(" (exit ").concat(
            status_number(output.status).as_str(),
        ).concat(")"),
    ).with_detail(escaped(output.stderr.as_slice()))
}

/// The one line that a child printed, without its end; it may be empty.
pub open spec fn line_or_nothing(bytes: Seq<u8>, description: Seq<char>) -> Outcome<Seq<u8>> {
    let line = trim_line_ends(bytes);
    if line.contains(LF) || line.contains(CR) || line.contains(NUL) {
        Err(failure("Git returned an invalid "@ + description))
    } else {
        Ok(line)
    }
}

/// The one line that a child printed, without its end.
pub open spec fn line_in(bytes: Seq<u8>, description: Seq<char>) -> Outcome<Seq<u8>> {
    match line_or_nothing(bytes, description) {
        Err(e) => Err(e),
        Ok(line) => if line.len() == 0 {
            Err(failure("Git returned an empty "@ + description))
        } else {
            Ok(line)
        },
    }
}

/// Takes the one line that a child printed; it may be empty.
pub fn one_line_allow_empty(bytes: Vec<u8>, description: &str) -> (r: Result<Vec<u8>>)
    ensures
        bytes_outcome(r) == line_or_nothing(bytes@, description@),
{
    let line = without_line_ends(bytes);
    if has_byte(line.as_slice(), LF) || has_byte(line.as_slice(), CR) || has_byte(
        line.as_slice(),
        NUL,
    ) {
        return Err(GroveError::failure(text("Git returned an invalid ").concat(description)));
    }
    Ok(line)
}

/// Takes the one line that a child printed.
pub fn one_line(bytes: Vec<u8>, description: &str) -> (r: Result<Vec<u8>>)
    ensures
        bytes_outcome(r) == line_in(bytes@, description@),
{
    let line = one_line_allow_empty(bytes, description)?;
    if line.len() == 0 {
        return Err(GroveError::failure(text("Git returned an empty ").concat(description)));
    }
    Ok(line)
}

// --------------------------------------------------------------------- snapshots

/// Words with a space between each two.
pub open spec fn sentence(words: Seq<&str>) -> Seq<char> {
    joined_text(words.map_values(|w: &str| w@), " "@)
}

fn sentence_of(words: &[&str]) -> (r: String)
    ensures
        r@ == sentence(words@),
{
    let mut list: Vec<String> = Vec::new();
    let mut i: usize = 0;
    let ghost all = words@.map_values(|w: &str| w@);
    proof {
        assert(texts(list@) =~= all.subrange(0, 0));
    }
    while i < words.len()
        invariant
            i <= words.len(),
            all == words@.map_values(|w: &str| w@),
            texts(list@) == all.subrange(0, i as int),
        decreases words.len() - i,
    {
        broadcast use lemma_texts_push;

        list.push(text(words[i]));
        proof {
            assert(all.subrange(0, i + 1) =~= all.subrange(0, i as int).push(words@[i as int]@));
        }
        i = i + 1;
    }
    proof {
        assert(all.subrange(0, i as int) =~= all);
    }
    crate::text::join(&list, " ")
}

/// Keeping what a child prints, byte for byte.
pub open spec fn snapshot_run(s: Session, root: Seq<u8>, words: Seq<&str>) -> (
    Session,
    Outcome<SnapshotBytes>,
) {
    match step(s, quiet(root, lits(words))) {
        (s1, Err(e)) => (s1, Err(e)),
        (s1, Ok(out)) => if out.ok() {
            (s1, Ok(SnapshotBytes { args: lits(words), bytes: out.stdout }))
        } else {
            (s1, Err(git_failure(sentence(words), out)))
        },
    }
}

pub open spec fn bytes_snapshot_outcome(r: Result<ByteSnapshot>) -> Outcome<SnapshotBytes> {
    match r {
        Ok(b) => Ok(b@),
        Err(e) => Err(e@),
    }
}

fn words_as_bytes(words: &[&str]) -> (r: Vec<Vec<u8>>)
    ensures
        views(r@) == lits(words@),
{
    let mut list: Vec<Vec<u8>> = Vec::new();
    let mut i: usize = 0;
    proof {
        assert(views(list@) =~= lits(words@).subrange(0, 0));
    }
    while i < words.len()
        invariant
            i <= words.len(),
            views(list@) == lits(words@).subrange(0, i as int),
        decreases words.len() - i,
    {
        broadcast use lemma_views_push;

        list.push(crate::bytes::bytes_of(words[i]));
        proof {
            assert(lits(words@).subrange(0, i + 1) =~= lits(words@).subrange(0, i as int).push(
                lit(words@[i as int]),
            ));
        }
        i = i + 1;
    }
    proof {
        assert(lits(words@).subrange(0, i as int) =~= lits(words@));
    }
    list
}

/// Keeps what a child prints, byte for byte.
pub fn snapshot<R: GitRunner + ?Sized>(runner: &mut R, root: &[u8], words: &[&str]) -> (r: Result<
    ByteSnapshot,
>)
    ensures
        (final(runner).session(), bytes_snapshot_outcome(r)) == snapshot_run(
            old(runner).session(),
            root@,
            words@,
        ),
{
    proof {
        assert(Seq::<Seq<u8>>::empty() + lits(words@) =~= lits(words@));
    }
    let output = runner.run(quietly(root).args(words))?;
    if !output.ok() {
        return Err(git_error(sentence_of(words).as_str(), &output));
    }
    Ok(ByteSnapshot { args: words_as_bytes(words), bytes: output.stdout })
}

/// The worktrees.
pub open spec fn worktree_words() -> Seq<&'static str> {
    seq!["worktree", "list", "--porcelain", "-z"]
}

/// The state of every file, ignored ones too.
pub open spec fn status_words() -> Seq<&'static str> {
    seq![
        "status",
        "--porcelain=v2",
        "-z",
        "--branch",
        "--untracked-files=all",
        "--ignored=matching",
    ]
}

/// The index.
pub open spec fn stage_words() -> Seq<&'static str> {
    seq!["ls-files", "--stage", "-z"]
}

/// The flags in the index.
pub open spec fn flag_words() -> Seq<&'static str> {
    seq!["ls-files", "-v", "-z"]
}

pub(crate) fn worktree_snapshot<R: GitRunner + ?Sized>(runner: &mut R, root: &[u8]) -> (r: Result<
    ByteSnapshot,
>)
    ensures
        (final(runner).session(), bytes_snapshot_outcome(r)) == snapshot_run(
            old(runner).session(),
            root@,
            worktree_words(),
        ),
{
    let words = ["worktree", "list", "--porcelain", "-z"];
    proof {
        assert(words@ =~= worktree_words());
    }
    snapshot(runner, root, vstd::array::array_as_slice(&words))
}

pub(crate) fn status_snapshot<R: GitRunner + ?Sized>(runner: &mut R, root: &[u8]) -> (r: Result<
    ByteSnapshot,
>)
    ensures
        (final(runner).session(), bytes_snapshot_outcome(r)) == snapshot_run(
            old(runner).session(),
            root@,
            status_words(),
        ),
{
    let words = [
        "status",
        "--porcelain=v2",
        "-z",
        "--branch",
        "--untracked-files=all",
        "--ignored=matching",
    ];
    proof {
        assert(words@ =~= status_words());
    }
    snapshot(runner, root, vstd::array::array_as_slice(&words))
}

pub(crate) fn stage_snapshot<R: GitRunner + ?Sized>(runner: &mut R, root: &[u8]) -> (r: Result<
    ByteSnapshot,
>)
    ensures
        (final(runner).session(), bytes_snapshot_outcome(r)) == snapshot_run(
            old(runner).session(),
            root@,
            stage_words(),
        ),
{
    let words = ["ls-files", "--stage", "-z"];
    proof {
        assert(words@ =~= stage_words());
    }
    snapshot(runner, root, vstd::array::array_as_slice(&words))
}

pub(crate) fn flag_snapshot<R: GitRunner + ?Sized>(runner: &mut R, root: &[u8]) -> (r: Result<
    ByteSnapshot,
>)
    ensures
        (final(runner).session(), bytes_snapshot_outcome(r)) == snapshot_run(
            old(runner).session(),
            root@,
            flag_words(),
        ),
{
    let words = ["ls-files", "-v", "-z"];
    proof {
        assert(words@ =~= flag_words());
    }
    snapshot(runner, root, vstd::array::array_as_slice(&words))
}

// ---------------------------------------------------------------- the only worktree

/// The fields that name a worktree.
pub open spec fn worktree_fields(fields: Seq<Seq<u8>>) -> Seq<Seq<u8>> {
    fields.filter(|f: Seq<u8>| starts_with(f, lit("worktree ")))
}

proof fn lemma_worktree_fields_push(fields: Seq<Seq<u8>>, last: Seq<u8>)
    ensures
        worktree_fields(fields.push(last)) == if starts_with(last, lit("worktree ")) {
            worktree_fields(fields).push(last)
        } else {
            worktree_fields(fields)
        },
{
    reveal(Seq::filter);
    assert(fields.push(last).drop_last() =~= fields);
}

/// Whether the list names one worktree, and that at the root.
pub open spec fn only_worktree(bytes: Seq<u8>, root: Seq<u8>) -> bool {
    let named = worktree_fields(split(bytes, NUL));
    named.len() == 1 && named[0] == lit("worktree ") + root
}

pub open spec fn single_worktree(bytes: Seq<u8>, root: Seq<u8>) -> Outcome<()> {
    if only_worktree(bytes, root) {
        Ok(())
    } else {
        Err(needs_decision("adopt requires exactly one main worktree at the repository root"@))
    }
}

/// Checks that there is one worktree, at the root.
pub fn validate_single_worktree(bytes: &[u8], root: &[u8]) -> (r: Result<()>)
    ensures
        plain(r) == single_worktree(bytes@, root@),
{
    let fields = split_on(bytes, NUL);
    let ghost all = views(fields@);
    let mut named: Vec<Vec<u8>> = Vec::new();
    let mut i: usize = 0;
    proof {
        reveal(Seq::filter);
        assert(all.subrange(0, 0) =~= Seq::<Seq<u8>>::empty());
        assert(views(named@) =~= Seq::<Seq<u8>>::empty());
    }
    while i < fields.len()
        invariant
            i <= fields.len(),
            all == views(fields@),
            all.len() == fields@.len(),
            views(named@) == worktree_fields(all.subrange(0, i as int)),
        decreases fields.len() - i,
    {
        broadcast use lemma_views_push;

        proof {
            lemma_worktree_fields_push(all.subrange(0, i as int), fields@[i as int]@);
            assert(all.subrange(0, i + 1) =~= all.subrange(0, i as int).push(
                fields@[i as int]@,
            ));
        }
        if has_prefix(fields[i].as_slice(), "worktree ".as_bytes()) {
            named.push(copied(fields[i].as_slice()));
        }
        i = i + 1;
    }
    proof {
        assert(all.subrange(0, i as int) =~= all);
        assert(views(named@).len() == named@.len());
    }
    if named.len() == 1 {
        proof {
            assert(views(named@)[0] == named@[0]@);
        }
        if same(named[0].as_slice(), prefixed("worktree ", root).as_slice()) {
            return Ok(());
        }
    }
    Err(decision_error("adopt requires exactly one main worktree at the repository root"))
}

// -------------------------------------------------------------- a repository at rest

/// What Git leaves in its directory while an operation is under way.
pub open spec fn active_words() -> Seq<&'static str> {
    seq![
        "MERGE_HEAD",
        "rebase-merge",
        "rebase-apply",
        "CHERRY_PICK_HEAD",
        "REVERT_HEAD",
        "sequencer",
        "BISECT_LOG",
        "BISECT_START",
        "MERGE_AUTOSTASH",
    ]
}

pub type GitList = Seq<(Seq<u8>, FileIdentity)>;

pub open spec fn holds_within(git: GitList, base: Seq<u8>) -> bool {
    exists|i: int| 0 <= i < git.len() && within((#[trigger] git[i]).0, base)
}

fn has_within(entries: &Vec<GitEntry>, base: &[u8]) -> (r: bool)
    ensures
        r == holds_within(git_views(entries@), base@),
{
    let ghost git = git_views(entries@);
    let mut i: usize = 0;
    while i < entries.len()
        invariant
            i <= entries.len(),
            git == git_views(entries@),
            git.len() == entries@.len(),
            forall|j: int| 0 <= j < i ==> !within((#[trigger] git[j]).0, base@),
        decreases entries.len() - i,
    {
        proof {
            assert(git[i as int] == (entries@[i as int].0@, entries@[i as int].1));
        }
        if is_within(entries[i].0.as_slice(), base) {
            proof {
                assert(within(git[i as int].0, base@));
            }
            return true;
        }
        i = i + 1;
    }
    false
}

/// Refusing a repository for the first marker from `i` on that is there.
pub open spec fn markers_from(git: GitList, words: Seq<&str>, i: int) -> Outcome<()>
    decreases words.len() - i,
{
    if i >= words.len() {
        Ok(())
    } else if holds_within(git, lit(words[i])) {
        Err(needs_decision("Git operation marker "@ + words[i]@ + " is active"@))
    } else {
        markers_from(git, words, i + 1)
    }
}

/// The first entry from `i` on whose name says that it is a lock, or the number of entries.
pub open spec fn lock_from(git: GitList, i: int) -> int
    decreases git.len() - i,
{
    if i >= git.len() {
        git.len() as int
    } else if locks(git[i].0) {
        i
    } else {
        lock_from(git, i + 1)
    }
}

pub open spec fn locks(path: Seq<u8>) -> bool {
    match last_name(path) {
        None => false,
        Some(name) => crate::bytes::ends_with(name, lit(".lock")),
    }
}

/// Whether a repository is at rest: no operation under way, and nothing locked.
pub open spec fn at_rest(git: GitList) -> Outcome<()> {
    match markers_from(git, active_words(), 0) {
        Err(e) => Err(e),
        Ok(_) => {
            let k = lock_from(git, 0);
            if k < git.len() {
                Err(needs_decision("Git lock "@ + lossy_text(git[k].0) + " exists"@))
            } else {
                Ok(())
            }
        },
    }
}

fn refuse_markers(entries: &Vec<GitEntry>, words: &[&str]) -> (r: Result<()>)
    ensures
        plain(r) == markers_from(git_views(entries@), words@, 0),
{
    let mut i: usize = 0;
    while i < words.len()
        invariant
            i <= words.len(),
            markers_from(git_views(entries@), words@, 0) == markers_from(
                git_views(entries@),
                words@,
                i as int,
            ),
        decreases words.len() - i,
    {
        if has_within(entries, words[i].as_bytes()) {
            return Err(
                GroveError::needs_decision(
                    text("Git operation marker ").concat(words[i]).concat(" is active"),
                ),
            );
        }
        i = i + 1;
    }
    Ok(())
}

/// Refuses a repository that is not at rest.
pub fn refuse_active_state(entries: &Vec<GitEntry>) -> (r: Result<()>)
    ensures
        plain(r) == at_rest(git_views(entries@)),
{
    let words = [
        "MERGE_HEAD",
        "rebase-merge",
        "rebase-apply",
        "CHERRY_PICK_HEAD",
        "REVERT_HEAD",
        "sequencer",
        "BISECT_LOG",
        "BISECT_START",
        "MERGE_AUTOSTASH",
    ];
    proof {
        assert(words@ =~= active_words());
    }
    refuse_markers(entries, vstd::array::array_as_slice(&words))?;
    let ghost git = git_views(entries@);
    let mut i: usize = 0;
    while i < entries.len()
        invariant
            i <= entries.len(),
            git == git_views(entries@),
            git.len() == entries@.len(),
            lock_from(git, 0) == lock_from(git, i as int),
            markers_from(git, active_words(), 0) is Ok,
        decreases entries.len() - i,
    {
        proof {
            assert(git[i as int] == (entries@[i as int].0@, entries@[i as int].1));
        }
        let locked = match file_name(entries[i].0.as_slice()) {
            None => false,
            Some(name) => crate::bytes::has_suffix(name.as_slice(), ".lock".as_bytes()),
        };
        if locked {
            return Err(
                GroveError::needs_decision(
                    text("Git lock ").concat(lossy(entries[i].0.as_slice()).as_str()).concat(
                        " exists",
                    ),
                ),
            );
        }
        i = i + 1;
    }
    Ok(())
}

proof fn lemma_markers(git: GitList, words: Seq<&str>, i: int, k: int)
    requires
        0 <= i <= k < words.len(),
        markers_from(git, words, i) is Ok,
    ensures
        !holds_within(git, lit(words[k])),
    decreases words.len() - i,
{
    if i < k {
        lemma_markers(git, words, i + 1, k);
    }
}

proof fn lemma_no_lock(git: GitList, i: int, k: int)
    requires
        0 <= i <= k < git.len(),
        lock_from(git, i) >= git.len(),
    ensures
        !locks(git[k].0),
    decreases git.len() - i,
{
    if i < k {
        lemma_no_lock(git, i + 1, k);
    }
}

/// A repository that is accepted has no operation under way, and none of its entries is a lock.
pub proof fn accepted_repositories_are_at_rest(git: GitList)
    requires
        at_rest(git) is Ok,
    ensures
        forall|k: int|
            0 <= k < active_words().len() ==> !holds_within(git, lit(#[trigger] active_words()[k])),
        forall|k: int| 0 <= k < git.len() ==> !locks((#[trigger] git[k]).0),
{
    assert forall|k: int| 0 <= k < active_words().len() implies !holds_within(
        git,
        lit(#[trigger] active_words()[k]),
    ) by {
        lemma_markers(git, active_words(), 0, k);
    }
    assert forall|k: int| 0 <= k < git.len() implies !locks((#[trigger] git[k]).0) by {
        lemma_no_lock(git, 0, k);
    }
}

/// A setting that would hide files.
pub open spec fn sparse_run(s: Session, root: Seq<u8>, key: &str) -> (Session, Outcome<()>) {
    match step(s, quiet(root, args4(lit("config"), lit("--bool"), lit("--get"), lit(key)))) {
        (s1, Err(e)) => (s1, Err(e)),
        (s1, Ok(out)) => if out.ok() {
            match line_in(out.stdout, key@) {
                Err(e) => (s1, Err(e)),
                Ok(value) => if value == lit("true") {
                    (
                        s1,
                        Err(
                            needs_decision(
                                "sparse checkout setting "@ + key@ + " is enabled"@,
                            ),
                        ),
                    )
                } else {
                    (s1, Ok(()))
                },
            }
        } else if out.status != 1 {
            (s1, Err(git_failure("read "@ + key@, out)))
        } else {
            (s1, Ok(()))
        },
    }
}

fn refuse_sparse<R: GitRunner + ?Sized>(runner: &mut R, root: &[u8], key: &str) -> (r: Result<()>)
    ensures
        (final(runner).session(), plain(r)) == sparse_run(old(runner).session(), root@, key),
{
    let output = runner.run(
        quietly(root).word("config").word("--bool").word("--get").word(key),
    )?;
    if output.ok() {
        let value = one_line(output.stdout, key)?;
        if is_lit(value.as_slice(), "true") {
            return Err(
                GroveError::needs_decision(
                    text("sparse checkout setting ").concat(key).concat(" is enabled"),
                ),
            );
        }
    } else if output.status != 1 {
        return Err(git_error(text("read ").concat(key).as_str(), &output));
    }
    Ok(())
}

/// Refusing conflicts, sparse checkouts and submodules.
pub open spec fn plain_checkout_run(s: Session, f: FileSession, root: Seq<u8>, git: HeldView) -> (
    Session,
    FileSession,
    Outcome<()>,
) {
    match step(s, quiet(root, args3(lit("ls-files"), lit("--unmerged"), lit("-z")))) {
        (s1, Err(e)) => (s1, f, Err(e)),
        (s1, Ok(out)) => if out.stdout.len() > 0 {
            (s1, f, Err(needs_decision("the index contains unresolved conflict stages"@)))
        } else {
            match sparse_run(s1, root, "core.sparseCheckout") {
                (s2, Err(e)) => (s2, f, Err(e)),
                (s2, Ok(_)) => match sparse_run(s2, root, "core.sparseCheckoutCone") {
                    (s3, Err(e)) => (s3, f, Err(e)),
                    (s3, Ok(_)) => match sparse_run(s3, root, "index.sparse") {
                        (s4, Err(e)) => (s4, f, Err(e)),
                        (s4, Ok(_)) => {
                            let (f1, modules) = found_step(
                                f,
                                FileRequest::Exists(child(git.anchored, lit("modules"))),
                            );
                            if modules {
                                (
                                    s4,
                                    f1,
                                    Err(
                                        needs_decision(
                                            "initialized submodules are not supported by adopt"@,
                                        ),
                                    ),
                                )
                            } else {
                                (s4, f1, Ok(()))
                            }
                        },
                    },
                },
            }
        },
    }
}

/// Refuses conflicts, sparse checkouts and submodules.
pub fn refuse_sparse_submodule_and_conflicts<R: GitRunner + ?Sized, F: FileSystem + ?Sized>(
    runner: &mut R,
    files: &mut F,
    root: &[u8],
    git: &HeldDirectory,
) -> (r: Result<()>)
    ensures
        (final(runner).session(), final(files).files(), plain(r)) == plain_checkout_run(
            old(runner).session(),
            old(files).files(),
            root@,
            git@,
        ),
{
    let conflicts = runner.run(quietly(root).word("ls-files").word("--unmerged").word("-z"))?;
    if conflicts.stdout.len() > 0 {
        return Err(decision_error("the index contains unresolved conflict stages"));
    }
    refuse_sparse(runner, root, "core.sparseCheckout")?;
    refuse_sparse(runner, root, "core.sparseCheckoutCone")?;
    refuse_sparse(runner, root, "index.sparse")?;
    if ask_found(
        files,
        FileRequest::Exists(join_word(git.anchored_path.as_slice(), "modules")),
    ) {
        return Err(decision_error("initialized submodules are not supported by adopt"));
    }
    Ok(())
}

// --------------------------------------------------------------------- where it is

/// The root of the repository that a path lies in.
pub open spec fn root_run(
    s: Session,
    f: FileSession,
    requested: Option<Seq<u8>>,
    cwd: Seq<u8>,
) -> (Session, FileSession, Outcome<Seq<u8>>) {
    let base = match requested {
        Some(p) => p,
        None => cwd,
    };
    match step(s, quiet(base, args2(lit("rev-parse"), lit("--show-toplevel")))) {
        (s1, Err(e)) => (s1, f, Err(e)),
        (s1, Ok(out)) => if !out.ok() {
            (s1, f, Err(git_failure("resolve repository top level"@, out)))
        } else {
            match line_in(out.stdout, "repository top level"@) {
                Err(e) => (s1, f, Err(e)),
                Ok(path) => match bytes_step(f, FileRequest::Canonicalize(path)) {
                    (f1, Err(e)) => (
                        s1,
                        f1,
                        Err(
                            needs_decision(
                                "cannot resolve "@ + lossy_text(path) + ": "@ + e.text,
                            ),
                        ),
                    ),
                    (f1, Ok(canonical)) => if requested is None {
                        (s1, f1, Ok(canonical))
                    } else {
                        match bytes_step(f1, FileRequest::Canonicalize(base)) {
                            (f2, Ok(b)) => if within(b, canonical) {
                                (s1, f2, Ok(canonical))
                            } else {
                                (s1, f2, Err(outside_repository()))
                            },
                            (f2, Err(_)) => (s1, f2, Err(outside_repository())),
                        }
                    },
                },
            }
        },
    }
}

pub open spec fn outside_repository() -> ErrorView {
    needs_decision("the requested path is not inside the resolved repository"@)
}

/// Finds the root of the repository that a path lies in.
pub fn resolve_root<R: GitRunner + ?Sized, F: FileSystem + ?Sized>(
    runner: &mut R,
    files: &mut F,
    requested: &Option<Vec<u8>>,
    cwd: &[u8],
) -> (r: Result<Vec<u8>>)
    ensures
        (final(runner).session(), final(files).files(), bytes_outcome(r)) == root_run(
            old(runner).session(),
            old(files).files(),
            opt_view(*requested),
            cwd@,
        ),
{
    let base: &[u8] = match requested {
        Some(p) => p.as_slice(),
        None => cwd,
    };
    let output = runner.run(quietly(base).word("rev-parse").word("--show-toplevel"))?;
    if !output.ok() {
        return Err(git_error("resolve repository top level", &output));
    }
    let path = one_line(output.stdout, "repository top level")?;
    let canonical = match ask_bytes(files, FileRequest::Canonicalize(copied(path.as_slice()))) {
        Err(e) => return Err(
            GroveError::needs_decision(
                text("cannot resolve ").concat(lossy(path.as_slice()).as_str()).concat(
                    ": ",
                ).concat(e.text.as_str()),
            ),
        ),
        Ok(canonical) => canonical,
    };
    if requested.is_some() {
        match ask_bytes(files, FileRequest::Canonicalize(copied(base))) {
            Ok(b) => if !is_within(b.as_slice(), canonical.as_slice()) {
                return Err(
                    decision_error("the requested path is not inside the resolved repository"),
                );
            },
            Err(_) => return Err(
                decision_error("the requested path is not inside the resolved repository"),
            ),
        }
    }
    Ok(canonical)
}

// ------------------------------------------------------------- HEAD and the remotes

pub open spec fn head_run(s: Session, root: Seq<u8>) -> (Session, Outcome<HeadView>) {
    match step(
        s,
        quiet(
            root,
            args4(lit("symbolic-ref"), lit("--quiet"), lit("--short"), lit("HEAD")),
        ),
    ) {
        (s1, Err(e)) => (s1, Err(e)),
        (s1, Ok(out)) => if out.ok() {
            match line_in(out.stdout, "current branch"@) {
                Err(e) => (s1, Err(e)),
                Ok(branch) => (s1, Ok(HeadView::Attached { branch })),
            }
        } else if out.status != 1 {
            (s1, Err(git_failure("read HEAD"@, out)))
        } else {
            match step(s1, quiet(root, args3(lit("rev-parse"), lit("--verify"), lit("HEAD")))) {
                (s2, Err(e)) => (s2, Err(e)),
                (s2, Ok(oid)) => if !oid.ok() {
                    (s2, Err(needs_decision("an unborn detached HEAD cannot be adopted"@)))
                } else {
                    match line_in(oid.stdout, "HEAD object ID"@) {
                        Err(e) => (s2, Err(e)),
                        Ok(line) => (s2, Ok(HeadView::Detached { oid: line })),
                    }
                },
            }
        },
    }
}

pub open spec fn head_outcome(r: Result<HeadProof>) -> Outcome<HeadView> {
    match r {
        Ok(h) => Ok(h@),
        Err(e) => Err(e@),
    }
}

/// Finds out where `HEAD` is.
pub fn resolve_head<R: GitRunner + ?Sized>(runner: &mut R, root: &[u8]) -> (r: Result<HeadProof>)
    ensures
        (final(runner).session(), head_outcome(r)) == head_run(old(runner).session(), root@),
{
    let symbolic = runner.run(
        quietly(root).word("symbolic-ref").word("--quiet").word("--short").word("HEAD"),
    )?;
    if symbolic.ok() {
        let branch = one_line(symbolic.stdout, "current branch")?;
        return Ok(HeadProof::Attached { branch });
    }
    if symbolic.status != 1 {
        return Err(git_error("read HEAD", &symbolic));
    }
    let output = runner.run(quietly(root).word("rev-parse").word("--verify").word("HEAD"))?;
    if !output.ok() {
        return Err(decision_error("an unborn detached HEAD cannot be adopted"));
    }
    let oid = one_line(output.stdout, "HEAD object ID")?;
    Ok(HeadProof::Detached { oid })
}

pub open spec fn remotes_run(s: Session, root: Seq<u8>) -> (Session, Outcome<Seq<Seq<u8>>>) {
    match step(s, quiet(root, args1(lit("remote")))) {
        (s1, Err(e)) => (s1, Err(e)),
        (s1, Ok(out)) => if out.ok() {
            (s1, Ok(sorted(non_empty(split(out.stdout, LF)))))
        } else {
            (s1, Err(git_failure("list remotes"@, out)))
        },
    }
}

/// Lists the remotes, in order.
pub fn configured_remotes<R: GitRunner + ?Sized>(runner: &mut R, root: &[u8]) -> (r: Result<
    Vec<Vec<u8>>,
>)
    ensures
        (final(runner).session(), list_outcome(r)) == remotes_run(old(runner).session(), root@),
{
    let output = runner.run(quietly(root).word("remote"))?;
    if !output.ok() {
        return Err(git_error("list remotes", &output));
    }
    Ok(sort_all(&split_non_empty(output.stdout.as_slice(), LF)))
}

/// The remote that was asked for, or the only one.
pub open spec fn selected_of(explicit: Option<Seq<u8>>, remotes: Seq<Seq<u8>>) -> Outcome<
    Option<Seq<u8>>,
> {
    match explicit {
        Some(name) => if remotes.contains(name) {
            Ok(Some(name))
        } else {
            Err(needs_decision("remote "@ + escape(name) + " is not configured"@))
        },
        None => if remotes.len() == 1 {
            Ok(Some(remotes[0]))
        } else {
            Ok(None)
        },
    }
}

/// Picks the remote that was asked for, or the only one.
pub fn select_remote(explicit: &Option<Vec<u8>>, remotes: &Vec<Vec<u8>>) -> (r: Result<
    Option<Vec<u8>>,
>)
    ensures
        opt_outcome(r) == selected_of(opt_view(*explicit), views(remotes@)),
{
    let ghost all = views(remotes@);
    proof {
        assert(all.len() == remotes@.len());
    }
    match explicit {
        Some(name) => {
            let mut i: usize = 0;
            while i < remotes.len()
                invariant
                    i <= remotes.len(),
                    all == views(remotes@),
                    all.len() == remotes@.len(),
                    opt_view(*explicit) == Some(name@),
                    forall|j: int| 0 <= j < i ==> all[j] != name@,
                decreases remotes.len() - i,
            {
                proof {
                    assert(all[i as int] == remotes@[i as int]@);
                }
                if same(remotes[i].as_slice(), name.as_slice()) {
                    proof {
                        assert(all.contains(name@));
                    }
                    return Ok(Some(copied(name.as_slice())));
                }
                i = i + 1;
            }
            Err(
                GroveError::needs_decision(
                    text("remote ").concat(escaped(name.as_slice()).as_str()).concat(
                        " is not configured",
                    ),
                ),
            )
        },
        None => if remotes.len() == 1 {
            proof {
                assert(all[0] == remotes@[0]@);
            }
            Ok(Some(copied(remotes[0].as_slice())))
        } else {
            Ok(None)
        },
    }
}

// ------------------------------------------------------------- the default branch

pub open spec fn ambiguous_default() -> ErrorView {
    needs_decision("the default branch is ambiguous; pass --default-branch"@)
}

/// The branch that `HEAD` is on, when there is no remote to ask.
pub open spec fn own_default(remotes: Seq<Seq<u8>>, head: HeadView) -> Outcome<Seq<u8>> {
    match head {
        HeadView::Attached { branch } => if remotes.len() == 0 {
            Ok(branch)
        } else {
            Err(ambiguous_default())
        },
        _ => Err(ambiguous_default()),
    }
}

/// The default branch: the one asked for, or the one that the remote's `HEAD` names, or, without
/// a remote, the current one.
pub open spec fn default_run(
    s: Session,
    root: Seq<u8>,
    explicit: Option<Seq<u8>>,
    selected: Option<Seq<u8>>,
    remotes: Seq<Seq<u8>>,
    head: HeadView,
) -> (Session, Outcome<Seq<u8>>) {
    match explicit {
        Some(branch) => (s, Ok(branch)),
        None => {
            let remote = match selected {
                Some(r) => Some(r),
                None => if remotes.len() == 1 {
                    Some(remotes[0])
                } else {
                    None
                },
            };
            match remote {
                None => (s, own_default(remotes, head)),
                Some(r) => match step(
                    s,
                    quiet(
                        root,
                        args4(
                            lit("symbolic-ref"),
                            lit("--quiet"),
                            lit("--short"),
                            lit("refs/remotes/") + r + lit("/HEAD"),
                        ),
                    ),
                ) {
                    (s1, Err(e)) => (s1, Err(e)),
                    (s1, Ok(out)) => if out.ok() {
                        match line_in(out.stdout, "remote HEAD"@) {
                            Err(e) => (s1, Err(e)),
                            Ok(target) => match without_prefix(target, r + lit("/")) {
                                None => (
                                    s1,
                                    Err(
                                        needs_decision(
                                            "the selected remote HEAD has an unexpected target"@,
                                        ),
                                    ),
                                ),
                                Some(branch) => (s1, Ok(branch)),
                            },
                        }
                    } else if out.status != 1 {
                        (s1, Err(git_failure("resolve remote HEAD"@, out)))
                    } else {
                        (s1, own_default(remotes, head))
                    },
                },
            }
        },
    }
}

fn own_branch(remotes: &Vec<Vec<u8>>, head: &HeadProof) -> (r: Result<Vec<u8>>)
    ensures
        bytes_outcome(r) == own_default(views(remotes@), head@),
{
    proof {
        assert(views(remotes@).len() == remotes@.len());
    }
    if remotes.len() == 0 {
        if let HeadProof::Attached { branch } = head {
            return Ok(copied(branch.as_slice()));
        }
    }
    Err(decision_error("the default branch is ambiguous; pass --default-branch"))
}

/// Finds the default branch.
pub fn resolve_default_branch<R: GitRunner + ?Sized>(
    runner: &mut R,
    root: &[u8],
    explicit: &Option<Vec<u8>>,
    selected: &Option<Vec<u8>>,
    remotes: &Vec<Vec<u8>>,
    head: &HeadProof,
) -> (r: Result<Vec<u8>>)
    ensures
        (final(runner).session(), bytes_outcome(r)) == default_run(
            old(runner).session(),
            root@,
            opt_view(*explicit),
            opt_view(*selected),
            views(remotes@),
            head@,
        ),
{
    if let Some(branch) = explicit {
        return Ok(copied(branch.as_slice()));
    }
    proof {
        assert(views(remotes@).len() == remotes@.len());
        if remotes@.len() == 1 {
            assert(views(remotes@)[0] == remotes@[0]@);
        }
    }
    let remote: &[u8] = match selected {
        Some(r) => r.as_slice(),
        None => if remotes.len() == 1 {
            remotes[0].as_slice()
        } else {
            return own_branch(remotes, head);
        },
    };
    let reference = joined(prefixed("refs/remotes/", remote).as_slice(), "/HEAD".as_bytes());
    let output = runner.run(
        quietly(root).word("symbolic-ref").word("--quiet").word("--short").arg(
            reference.as_slice(),
        ),
    )?;
    if output.ok() {
        let target = one_line(output.stdout, "remote HEAD")?;
        let prefix = joined(remote, "/".as_bytes());
        return match strip_prefix(target.as_slice(), prefix.as_slice()) {
            None => Err(decision_error("the selected remote HEAD has an unexpected target")),
            Some(branch) => Ok(copied(branch)),
        };
    }
    if output.status != 1 {
        return Err(git_error("resolve remote HEAD", &output));
    }
    own_branch(remotes, head)
}

/// Whether a branch's name is one that Git accepts.
pub open spec fn branch_run(s: Session, root: Seq<u8>, branch: Seq<u8>) -> (Session, Outcome<()>) {
    if starts_with(branch, lit("-")) {
        (s, Err(usage("the default branch must not begin with '-'"@)))
    } else {
        match step(s, quiet(root, args3(lit("check-ref-format"), lit("--branch"), branch))) {
            (s1, Err(e)) => (s1, Err(e)),
            (s1, Ok(out)) => if out.ok() {
                (s1, Ok(()))
            } else {
                (s1, Err(usage(escape(branch) + " is not a valid branch name"@)))
            },
        }
    }
}

/// Checks the name of the default branch.
pub fn validate_branch<R: GitRunner + ?Sized>(runner: &mut R, root: &[u8], branch: &[u8]) -> (r:
    Result<()>)
    ensures
        (final(runner).session(), plain(r)) == branch_run(
            old(runner).session(),
            root@,
            branch@,
        ),
{
    if has_prefix(branch, "-".as_bytes()) {
        return Err(usage_error("the default branch must not begin with '-'"));
    }
    let output = runner.run(
        quietly(root).word("check-ref-format").word("--branch").arg(branch),
    )?;
    if !output.ok() {
        return Err(GroveError::usage(escaped(branch).concat(" is not a valid branch name")));
    }
    Ok(())
}

pub open spec fn ref_run(s: Session, root: Seq<u8>, reference: Seq<u8>) -> (Session, Outcome<bool>) {
    match step(
        s,
        quiet(root, args4(lit("show-ref"), lit("--verify"), lit("--quiet"), reference)),
    ) {
        (s1, Err(e)) => (s1, Err(e)),
        (s1, Ok(out)) => if out.status == 0 {
            (s1, Ok(true))
        } else if out.status == 1 {
            (s1, Ok(false))
        } else {
            (s1, Err(git_failure("verify branch"@, out)))
        },
    }
}

/// Whether a ref exists.
pub fn ref_exists<R: GitRunner + ?Sized>(runner: &mut R, root: &[u8], reference: &[u8]) -> (r: Result<
    bool,
>)
    ensures
        (final(runner).session(), plain(r)) == ref_run(
            old(runner).session(),
            root@,
            reference@,
        ),
{
    let output = runner.run(
        quietly(root).word("show-ref").word("--verify").word("--quiet").arg(reference),
    )?;
    if output.status == 0 {
        Ok(true)
    } else if output.status == 1 {
        Ok(false)
    } else {
        Err(git_error("verify branch", &output))
    }
}

/// Whether one of the refspecs maps a branch to a ref.
pub open spec fn any_maps(specs: Seq<Seq<u8>>, source: Seq<u8>, to: Seq<u8>) -> bool {
    exists|i: int| 0 <= i < specs.len() && mapped(#[trigger] specs[i], source) == Some(to)
}

/// Whether one of the refspecs leaves a branch out.
pub open spec fn any_leaves_out(specs: Seq<Seq<u8>>, source: Seq<u8>) -> bool {
    exists|i: int| 0 <= i < specs.len() && crate::git::query::excluded(#[trigger] specs[i], source)
}

pub open spec fn tracking_of(remote: Seq<u8>, branch: Seq<u8>) -> Seq<u8> {
    lit("refs/remotes/") + remote + lit("/") + branch
}

fn tracking_ref(remote: &[u8], branch: &[u8]) -> (r: Vec<u8>)
    ensures
        r@ == tracking_of(remote@, branch@),
{
    let head = joined(prefixed("refs/remotes/", remote).as_slice(), "/".as_bytes());
    joined(head.as_slice(), branch)
}

/// Whether fetching from a remote updates a branch's tracking ref.
pub open spec fn maps_run(s: Session, root: Seq<u8>, remote: Seq<u8>, branch: Seq<u8>) -> (
    Session,
    Outcome<bool>,
) {
    match step(
        s,
        quiet(
            root,
            args3(lit("config"), lit("--get-all"), lit("remote.") + remote + lit(".fetch")),
        ),
    ) {
        (s1, Err(e)) => (s1, Err(e)),
        (s1, Ok(out)) => if out.status == 1 {
            (s1, Ok(false))
        } else if !out.ok() {
            (s1, Err(git_failure("read selected remote fetch refspec"@, out)))
        } else {
            let specs = non_empty(split(out.stdout, LF));
            let source = lit("refs/heads/") + branch;
            (
                s1,
                Ok(
                    !any_leaves_out(specs, source) && any_maps(
                        specs,
                        source,
                        tracking_of(remote, branch),
                    ),
                ),
            )
        },
    }
}

fn leaves_out(specs: &Vec<Vec<u8>>, source: &[u8]) -> (r: bool)
    ensures
        r == any_leaves_out(views(specs@), source@),
{
    let ghost all = views(specs@);
    let mut i: usize = 0;
    while i < specs.len()
        invariant
            i <= specs.len(),
            all == views(specs@),
            all.len() == specs@.len(),
            forall|j: int| 0 <= j < i ==> !crate::git::query::excluded(#[trigger] all[j], source@),
        decreases specs.len() - i,
    {
        proof {
            assert(all[i as int] == specs@[i as int]@);
        }
        if excludes_source(specs[i].as_slice(), source) {
            proof {
                assert(crate::git::query::excluded(all[i as int], source@));
            }
            return true;
        }
        i = i + 1;
    }
    false
}

fn maps_to(specs: &Vec<Vec<u8>>, source: &[u8], to: &[u8]) -> (r: bool)
    ensures
        r == any_maps(views(specs@), source@, to@),
{
    let ghost all = views(specs@);
    let mut i: usize = 0;
    while i < specs.len()
        invariant
            i <= specs.len(),
            all == views(specs@),
            all.len() == specs@.len(),
            forall|j: int| 0 <= j < i ==> mapped(#[trigger] all[j], source@) != Some(to@),
        decreases specs.len() - i,
    {
        proof {
            assert(all[i as int] == specs@[i as int]@);
        }
        let found = match map_refspec(specs[i].as_slice(), source) {
            None => false,
            Some(target) => same(target.as_slice(), to),
        };
        if found {
            proof {
                assert(mapped(all[i as int], source@) == Some(to@));
            }
            return true;
        }
        i = i + 1;
    }
    false
}

/// Whether fetching from a remote updates a branch's tracking ref.
pub fn remote_maps_branch<R: GitRunner + ?Sized>(
    runner: &mut R,
    root: &[u8],
    remote: &[u8],
    branch: &[u8],
) -> (r: Result<bool>)
    ensures
        (final(runner).session(), plain(r)) == maps_run(
            old(runner).session(),
            root@,
            remote@,
            branch@,
        ),
{
    let key = joined(prefixed("remote.", remote).as_slice(), ".fetch".as_bytes());
    let output = runner.run(
        quietly(root).word("config").word("--get-all").arg(key.as_slice()),
    )?;
    if output.status == 1 {
        return Ok(false);
    }
    if !output.ok() {
        return Err(git_error("read selected remote fetch refspec", &output));
    }
    let source = prefixed("refs/heads/", branch);
    let expected = tracking_ref(remote, branch);
    let specs = split_non_empty(output.stdout.as_slice(), LF);
    if leaves_out(&specs, source.as_slice()) {
        return Ok(false);
    }
    Ok(maps_to(&specs, source.as_slice(), expected.as_slice()))
}

pub open spec fn attached_to(head: HeadView, branch: Seq<u8>) -> bool {
    match head {
        HeadView::Attached { branch: current } => current == branch,
        _ => false,
    }
}

pub(crate) fn is_attached_to(head: &HeadProof, branch: &[u8]) -> (r: bool)
    ensures
        r == attached_to(head@, branch@),
{
    match head {
        HeadProof::Attached { branch: current } => same(current.as_slice(), branch),
        _ => false,
    }
}

pub open spec fn absent_default(branch: Seq<u8>) -> ErrorView {
    needs_decision(
        "default branch "@ + escape(branch)
            + " is neither local nor present under the selected remote"@,
    )
}

/// Whether the default branch exists: locally, or as the branch that `HEAD` is yet to be born
/// on, or under the selected remote, whose refspecs map it.
pub open spec fn exists_run(
    s: Session,
    root: Seq<u8>,
    branch: Seq<u8>,
    remote: Option<Seq<u8>>,
    head: HeadView,
) -> (Session, Outcome<()>) {
    match ref_run(s, root, lit("refs/heads/") + branch) {
        (s1, Err(e)) => (s1, Err(e)),
        (s1, Ok(local)) => if local || attached_to(head, branch) {
            (s1, Ok(()))
        } else {
            match remote {
                None => (s1, Err(absent_default(branch))),
                Some(r) => match ref_run(s1, root, tracking_of(r, branch)) {
                    (s2, Err(e)) => (s2, Err(e)),
                    (s2, Ok(there)) => if !there {
                        (s2, Err(absent_default(branch)))
                    } else {
                        match maps_run(s2, root, r, branch) {
                            (s3, Err(e)) => (s3, Err(e)),
                            (s3, Ok(maps)) => if maps {
                                (s3, Ok(()))
                            } else {
                                (s3, Err(absent_default(branch)))
                            },
                        }
                    },
                },
            }
        },
    }
}

/// Checks that the default branch exists.
pub fn require_default_exists<R: GitRunner + ?Sized>(
    runner: &mut R,
    root: &[u8],
    branch: &[u8],
    remote: &Option<Vec<u8>>,
    head: &HeadProof,
) -> (r: Result<()>)
    ensures
        (final(runner).session(), plain(r)) == exists_run(
            old(runner).session(),
            root@,
            branch@,
            opt_view(*remote),
            head@,
        ),
{
    if ref_exists(runner, root, prefixed("refs/heads/", branch).as_slice())? {
        return Ok(());
    }
    if is_attached_to(head, branch) {
        return Ok(());
    }
    if let Some(remote) = remote {
        if ref_exists(runner, root, tracking_ref(remote.as_slice(), branch).as_slice())?
            && remote_maps_branch(runner, root, remote.as_slice(), branch)? {
            return Ok(());
        }
    }
    Err(
        GroveError::needs_decision(
            text("default branch ").concat(escaped(branch).as_str()).concat(
                " is neither local nor present under the selected remote",
            ),
        ),
    )
}

} // verus!
