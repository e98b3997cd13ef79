//! Planning an adoption leaves a repository as it is.
use vstd::prelude::*;
use crate::bytes::lit;
use crate::commands::adopt::args::{checked_args, AdoptAction, ArgsView};
use crate::commands::adopt::evidence::{HeadView, InventoryView, ManifestView, NamedView};
use crate::commands::adopt::inventory::{
    blob_run, collect_run, content_run, named_blob_run, named_from, optional_blob_run,
    payload_from, paths_of, skipped, unsafe_entry,
};
use crate::commands::adopt::preflight::{
    classify_run, core_run, decide_run, hold_run, look_run, plan_run, reserved_run, settle_run,
    state_run, survey_run, PartsView,
};
use crate::commands::adopt::private::{
    migrates_run, private_from, private_run, shared_names_run, shared_ref_paths, shared_refs_run,
};
use crate::commands::adopt::queries::{
    branch_run, default_run, exists_run, flag_words, head_run, maps_run, plain_checkout_run, quiet,
    ref_run, remotes_run, root_run, selected_of, snapshot_run, sparse_run, stage_words,
    status_words, worktree_words, GitList,
};
use crate::commands::adopt::run::{
    begin_run, placed, transaction_name, transaction_run, AdoptionNonce,
};
use crate::fsx::directory::{open_run, HeldView};
use crate::fsx::below::{held_identity_run, inventory_run};
use crate::fsx::files::{
    bytes_step, done_step, facts_step, found_step, identity_step, EntryView, FileRequest,
    FileSession,
};
use crate::fsx::looking::{
    directories_are_opened_by_looking, held_identities_are_found_by_looking,
    inventories_are_taken_by_looking, lemma_looked_on, lemma_one_look, looks, only_looked,
};
use crate::fsx::held::{checked_path, kind_of, FileKind};
use crate::fsx::lock::LockMode;
use crate::fsx::mountinfo::{boundary_run, live_run};
use crate::git::runner::{
    args1, args2, args3, args4, args5, lits, step, InvocationView, Session,
};
use crate::path::{child, joined_names, parts};

verus! {

// ------------------------------------------------------------------- the file system

proof fn lemma_content(f: FileSession, path: Seq<u8>, mode: u32)
    ensures
        only_looked(f, content_run(f, path, mode).0),
{
    lemma_one_look(f, FileRequest::Read(path));
    lemma_one_look(f, FileRequest::ReadLink(path));
}

proof fn lemma_payload(
    f: FileSession,
    root: HeldView,
    entries: Seq<EntryView>,
    done: Seq<ManifestView>,
    i: int,
)
    ensures
        only_looked(f, payload_from(f, root, entries, done, i).0),
    decreases entries.len() - i,
{
    if i < entries.len() {
        if skipped(entries[i]) {
            lemma_payload(f, root, entries, done, i + 1);
        } else if unsafe_entry(entries[i], root.identity.mount_id) is None {
            let path = joined_names(entries[i].path);
            let absolute = child(root.anchored, path);
            lemma_content(f, absolute, entries[i].identity.mode);
            let (f1, content) = content_run(f, absolute, entries[i].identity.mode);
            if content is Ok {
                let next = done.push(
                    ManifestView {
                        path,
                        identity: entries[i].identity,
                        content: content->Ok_0,
                    },
                );
                lemma_payload(f1, root, entries, next, i + 1);
                lemma_looked_on(f, f1, payload_from(f1, root, entries, next, i + 1).0);
            }
        }
    }
}

proof fn lemma_collect(f: FileSession, root: HeldView, git: HeldView)
    ensures
        only_looked(f, collect_run(f, root, git).0),
{
    inventories_are_taken_by_looking(f, root.handle);
    let (f1, entries) = inventory_run(f, root.handle);
    if entries is Ok {
        let list = entries->Ok_0;
        lemma_payload(f1, root, list, Seq::empty(), 0);
        let (f2, payload) = payload_from(f1, root, list, Seq::empty(), 0);
        lemma_looked_on(f, f1, f2);
        inventories_are_taken_by_looking(f2, git.handle);
        lemma_looked_on(f, f2, inventory_run(f2, git.handle).0);
    }
}

proof fn lemma_blob(f: FileSession, git: HeldView, relative: Seq<u8>)
    ensures
        only_looked(f, blob_run(f, git, relative).0),
        only_looked(f, named_blob_run(f, git, relative).0),
{
    if checked_path(relative) is Ok {
        let path = joined_names(checked_path(relative)->Ok_0);
        let r1 = FileRequest::IdentityAt(git.handle, path);
        let r2 = FileRequest::Read(child(git.anchored, path));
        lemma_one_look(f, r1);
        let f1 = identity_step(f, r1).0;
        lemma_one_look(f1, r2);
        lemma_looked_on(f, f1, bytes_step(f1, r2).0);
    }
}

proof fn lemma_optional_blob(f: FileSession, git: HeldView, relative: Seq<u8>)
    ensures
        only_looked(f, optional_blob_run(f, git, relative).0),
{
    let r1 = FileRequest::Inspect(child(git.anchored, relative));
    lemma_one_look(f, r1);
    let f1 = facts_step(f, r1).0;
    lemma_blob(f1, git, relative);
    lemma_looked_on(f, f1, blob_run(f1, git, relative).0);
}

proof fn lemma_named(
    f: FileSession,
    git: HeldView,
    paths: Seq<Seq<u8>>,
    done: Seq<NamedView>,
    i: int,
)
    ensures
        only_looked(f, named_from(f, git, paths, done, i).0),
    decreases paths.len() - i,
{
    if i < paths.len() {
        lemma_blob(f, git, paths[i]);
        let (f1, n) = named_blob_run(f, git, paths[i]);
        if n is Ok {
            lemma_named(f1, git, paths, done.push(n->Ok_0), i + 1);
            lemma_looked_on(f, f1, named_from(f1, git, paths, done.push(n->Ok_0), i + 1).0);
        }
    }
}

// -------------------------------------------------------------------------------- Git

/// The subcommands that only answer questions, asked so that they take no optional lock.
pub open spec fn asks(i: InvocationView) -> bool {
    &&& i.environment == Seq::empty().push((lit("GIT_OPTIONAL_LOCKS"), lit("0")))
    &&& i.args.len() > 0
    &&& {
        ||| i.args[0] == lit("rev-parse")
        ||| i.args[0] == lit("worktree") && i.args.len() > 1 && i.args[1] == lit("list")
        ||| i.args[0] == lit("ls-files")
        ||| i.args[0] == lit("status")
        ||| i.args[0] == lit("symbolic-ref")
        ||| i.args[0] == lit("show-ref")
        ||| i.args[0] == lit("check-ref-format")
        ||| i.args == args1(lit("remote"))
        ||| i.args[0] == lit("config") && i.args.len() > 2 && (i.args[1] == lit("--get-all")
            || i.args[2] == lit("--get"))
    }
}

/// Whether every child between two states of a session only answers a question.
pub open spec fn only_asked(before: Session, after: Session) -> bool {
    &&& before.calls.len() <= after.calls.len()
    &&& forall|i: int|
        0 <= i < after.calls.len() ==> if i < before.calls.len() {
            #[trigger] after.calls[i] == before.calls[i]
        } else {
            asks(after.calls[i])
        }
}

proof fn lemma_asked_on(a: Session, b: Session, c: Session)
    requires
        only_asked(a, b),
        only_asked(b, c),
    ensures
        only_asked(a, c),
{
    assert forall|i: int| 0 <= i < c.calls.len() implies if i < a.calls.len() {
        #[trigger] c.calls[i] == a.calls[i]
    } else {
        asks(c.calls[i])
    } by {
        if i < b.calls.len() {
            assert(c.calls[i] == b.calls[i]);
            if i < a.calls.len() {
                assert(b.calls[i] == a.calls[i]);
            } else {
                assert(asks(b.calls[i]));
            }
        }
    }
}

proof fn lemma_one_question(s: Session, i: InvocationView)
    requires
        asks(i),
    ensures
        only_asked(s, step(s, i).0),
{
}

proof fn lemma_snapshots(s: Session, root: Seq<u8>)
    ensures
        only_asked(s, snapshot_run(s, root, worktree_words()).0),
        only_asked(s, snapshot_run(s, root, status_words()).0),
        only_asked(s, snapshot_run(s, root, stage_words()).0),
        only_asked(s, snapshot_run(s, root, flag_words()).0),
{
    assert(lits(worktree_words())[0] == lit("worktree"));
    assert(lits(worktree_words())[1] == lit("list"));
    assert(lits(status_words())[0] == lit("status"));
    assert(lits(stage_words())[0] == lit("ls-files"));
    assert(lits(flag_words())[0] == lit("ls-files"));
    lemma_one_question(s, quiet(root, lits(worktree_words())));
    lemma_one_question(s, quiet(root, lits(status_words())));
    lemma_one_question(s, quiet(root, lits(stage_words())));
    lemma_one_question(s, quiet(root, lits(flag_words())));
}

proof fn lemma_state(s: Session, root: Seq<u8>)
    ensures
        only_asked(s, state_run(s, root).0),
{
    lemma_snapshots(s, root);
    let s1 = snapshot_run(s, root, status_words()).0;
    lemma_snapshots(s1, root);
    let s2 = snapshot_run(s1, root, stage_words()).0;
    lemma_asked_on(s, s1, s2);
    lemma_snapshots(s2, root);
    lemma_asked_on(s, s2, snapshot_run(s2, root, flag_words()).0);
}

proof fn lemma_sparse(s: Session, root: Seq<u8>, key: &str)
    ensures
        only_asked(s, sparse_run(s, root, key).0),
{
    lemma_one_question(
        s,
        quiet(root, args4(lit("config"), lit("--bool"), lit("--get"), lit(key))),
    );
}

proof fn lemma_plain_checkout(s: Session, f: FileSession, root: Seq<u8>, git: HeldView)
    ensures
        only_asked(s, plain_checkout_run(s, f, root, git).0),
        only_looked(f, plain_checkout_run(s, f, root, git).1),
{
    let i = quiet(root, args3(lit("ls-files"), lit("--unmerged"), lit("-z")));
    lemma_one_question(s, i);
    let s1 = step(s, i).0;
    lemma_sparse(s1, root, "core.sparseCheckout");
    let s2 = sparse_run(s1, root, "core.sparseCheckout").0;
    lemma_asked_on(s, s1, s2);
    lemma_sparse(s2, root, "core.sparseCheckoutCone");
    let s3 = sparse_run(s2, root, "core.sparseCheckoutCone").0;
    lemma_asked_on(s, s2, s3);
    lemma_sparse(s3, root, "index.sparse");
    lemma_asked_on(s, s3, sparse_run(s3, root, "index.sparse").0);
    lemma_one_look(f, FileRequest::Exists(child(git.anchored, lit("modules"))));
}

proof fn lemma_root(s: Session, f: FileSession, requested: Option<Seq<u8>>, cwd: Seq<u8>)
    ensures
        only_asked(s, root_run(s, f, requested, cwd).0),
        only_looked(f, root_run(s, f, requested, cwd).1),
{
    let base = match requested {
        Some(p) => p,
        None => cwd,
    };
    let i = quiet(base, args2(lit("rev-parse"), lit("--show-toplevel")));
    lemma_one_question(s, i);
    let out = step(s, i).1;
    if out is Ok {
        let line = crate::commands::adopt::queries::line_in(
            out->Ok_0.stdout,
            "repository top level"@,
        );
        if line is Ok {
            let r1 = FileRequest::Canonicalize(line->Ok_0);
            lemma_one_look(f, r1);
            let f1 = bytes_step(f, r1).0;
            lemma_one_look(f1, FileRequest::Canonicalize(base));
            lemma_looked_on(f, f1, bytes_step(f1, FileRequest::Canonicalize(base)).0);
        }
    }
}

proof fn lemma_head(s: Session, root: Seq<u8>)
    ensures
        only_asked(s, head_run(s, root).0),
        only_asked(s, remotes_run(s, root).0),
{
    let i = quiet(
        root,
        args4(lit("symbolic-ref"), lit("--quiet"), lit("--short"), lit("HEAD")),
    );
    let k = quiet(root, args3(lit("rev-parse"), lit("--verify"), lit("HEAD")));
    lemma_one_question(s, i);
    let s1 = step(s, i).0;
    lemma_one_question(s1, k);
    lemma_asked_on(s, s1, step(s1, k).0);
    lemma_one_question(s, quiet(root, args1(lit("remote"))));
}

proof fn lemma_default(
    s: Session,
    root: Seq<u8>,
    explicit: Option<Seq<u8>>,
    selected: Option<Seq<u8>>,
    remotes: Seq<Seq<u8>>,
    head: HeadView,
)
    ensures
        only_asked(s, default_run(s, root, explicit, selected, remotes, head).0),
{
    let remote = match selected {
        Some(r) => Some(r),
        None => if remotes.len() == 1 {
            Some(remotes[0])
        } else {
            None
        },
    };
    if remote is Some {
        lemma_one_question(
            s,
            quiet(
                root,
                args4(
                    lit("symbolic-ref"),
                    lit("--quiet"),
                    lit("--short"),
                    lit("refs/remotes/") + remote->Some_0 + lit("/HEAD"),
                ),
            ),
        );
    }
}

proof fn lemma_branch(s: Session, root: Seq<u8>, branch: Seq<u8>)
    ensures
        only_asked(s, branch_run(s, root, branch).0),
{
    lemma_one_question(s, quiet(root, args3(lit("check-ref-format"), lit("--branch"), branch)));
}

proof fn lemma_ref(s: Session, root: Seq<u8>, reference: Seq<u8>)
    ensures
        only_asked(s, ref_run(s, root, reference).0),
{
    lemma_one_question(
        s,
        quiet(root, args4(lit("show-ref"), lit("--verify"), lit("--quiet"), reference)),
    );
}

proof fn lemma_exists(
    s: Session,
    root: Seq<u8>,
    branch: Seq<u8>,
    remote: Option<Seq<u8>>,
    head: HeadView,
)
    ensures
        only_asked(s, exists_run(s, root, branch, remote, head).0),
{
    let local = lit("refs/heads/") + branch;
    lemma_ref(s, root, local);
    let s1 = ref_run(s, root, local).0;
    if remote is Some {
        let r = remote->Some_0;
        let there = crate::commands::adopt::queries::tracking_of(r, branch);
        lemma_ref(s1, root, there);
        let s2 = ref_run(s1, root, there).0;
        lemma_asked_on(s, s1, s2);
        let i = quiet(
            root,
            args3(lit("config"), lit("--get-all"), lit("remote.") + r + lit(".fetch")),
        );
        lemma_one_question(s2, i);
        lemma_asked_on(s, s2, maps_run(s2, root, r, branch).0);
    }
}

proof fn lemma_decide(s: Session, root: Seq<u8>, a: ArgsView)
    ensures
        only_asked(s, decide_run(s, root, a).0),
{
    lemma_head(s, root);
    let (s1, head) = head_run(s, root);
    if head is Ok {
        lemma_head(s1, root);
        let (s2, remotes) = remotes_run(s1, root);
        lemma_asked_on(s, s1, s2);
        if remotes is Ok {
            let selected = selected_of(a.remote, remotes->Ok_0);
            if selected is Ok {
                let x = selected->Ok_0;
                lemma_default(s2, root, a.default_branch, x, remotes->Ok_0, head->Ok_0);
                let (s3, branch) = default_run(
                    s2,
                    root,
                    a.default_branch,
                    x,
                    remotes->Ok_0,
                    head->Ok_0,
                );
                lemma_asked_on(s, s2, s3);
                if branch is Ok {
                    let b = branch->Ok_0;
                    lemma_branch(s3, root, b);
                    let s4 = branch_run(s3, root, b).0;
                    lemma_asked_on(s, s3, s4);
                    lemma_exists(s4, root, b, x, head->Ok_0);
                    lemma_asked_on(s, s4, exists_run(s4, root, b, x, head->Ok_0).0);
                }
            }
        }
    }
}

proof fn lemma_shared_names(s: Session, root: Seq<u8>)
    ensures
        only_asked(s, shared_names_run(s, root).0),
{
    lemma_one_question(s, quiet(root, args2(lit("rev-parse"), lit("--shared-index-path"))));
}

proof fn lemma_migrates(s: Session, root: Seq<u8>, path: Seq<u8>, shared: Seq<Seq<u8>>)
    ensures
        only_asked(s, migrates_run(s, root, path, shared).0),
{
    lemma_one_question(
        s,
        quiet(
            root,
            args5(
                lit("rev-parse"),
                lit("--verify"),
                lit("--quiet"),
                lit("--end-of-options"),
                path + lit("^{object}"),
            ),
        ),
    );
}

proof fn lemma_private(
    s: Session,
    f: FileSession,
    root: Seq<u8>,
    git: HeldView,
    entries: GitList,
    shared: Seq<Seq<u8>>,
    private: Seq<NamedView>,
    fallthrough: Seq<Seq<u8>>,
    i: int,
)
    ensures
        only_asked(
            s,
            private_from(s, f, root, git, entries, shared, private, fallthrough, i).0,
        ),
        only_looked(
            f,
            private_from(s, f, root, git, entries, shared, private, fallthrough, i).1,
        ),
    decreases entries.len() - i,
{
    if i < entries.len() {
        if kind_of(entries[i].1.mode) != FileKind::Regular {
            lemma_private(s, f, root, git, entries, shared, private, fallthrough, i + 1);
        } else {
            let path = entries[i].0;
            lemma_migrates(s, root, path, shared);
            let (s1, goes) = migrates_run(s, root, path, shared);
            if goes is Ok && goes->Ok_0 {
                lemma_blob(f, git, path);
                let (f1, n) = named_blob_run(f, git, path);
                if n is Ok {
                    let next = private.push(n->Ok_0);
                    lemma_private(s1, f1, root, git, entries, shared, next, fallthrough, i + 1);
                    let end = private_from(
                        s1,
                        f1,
                        root,
                        git,
                        entries,
                        shared,
                        next,
                        fallthrough,
                        i + 1,
                    );
                    lemma_asked_on(s, s1, end.0);
                    lemma_looked_on(f, f1, end.1);
                }
            } else if goes is Ok {
                let next = if parts(path).len() == 1
                    && !crate::commands::adopt::private::known_shared(path) {
                    fallthrough.push(path)
                } else {
                    fallthrough
                };
                lemma_private(s1, f, root, git, entries, shared, private, next, i + 1);
                lemma_asked_on(
                    s,
                    s1,
                    private_from(s1, f, root, git, entries, shared, private, next, i + 1).0,
                );
            }
        }
    }
}

proof fn lemma_classify(s: Session, f: FileSession, root: Seq<u8>, git: HeldView, entries: GitList)
    ensures
        only_asked(s, classify_run(s, f, root, git, entries).0),
        only_looked(f, classify_run(s, f, root, git, entries).1),
{
    lemma_shared_names(s, root);
    let (s0, shared) = shared_names_run(s, root);
    if shared is Ok {
        lemma_private(
            s0,
            f,
            root,
            git,
            entries,
            shared->Ok_0,
            Seq::empty(),
            Seq::empty(),
            0,
        );
        let (s1, f1, parted) = private_run(s, f, root, git, entries);
        lemma_asked_on(s, s0, s1);
        if parted is Ok {
            let paths = shared_ref_paths(entries, entries.len() as int);
            lemma_named(f1, git, paths, Seq::empty(), 0);
            let (f2, refs) = shared_refs_run(f1, git, entries);
            lemma_looked_on(f, f1, f2);
            if refs is Ok {
                lemma_shared_names(s1, root);
                let (s3, names) = shared_names_run(s1, root);
                lemma_asked_on(s, s1, s3);
                if names is Ok {
                    lemma_named(f2, git, names->Ok_0, Seq::empty(), 0);
                    lemma_looked_on(f, f2, named_from(f2, git, names->Ok_0, Seq::empty(), 0).0);
                }
            }
        }
    }
}

// ------------------------------------------------------------------------------- the plan

proof fn lemma_hold(f: FileSession, root: Seq<u8>)
    ensures
        only_looked(f, hold_run(f, root).0),
{
    let git = child(root, lit(".git"));
    directories_are_opened_by_looking(f, root);
    let (f1, held) = open_run(f, root);
    if held is Ok {
        let h = held->Ok_0;
        lemma_one_look(f1, FileRequest::List(h.anchored));
        let (f2, free) = reserved_run(f1, h);
        lemma_looked_on(f, f1, f2);
        lemma_one_look(f2, FileRequest::Inspect(git));
        let (f3, facts) = facts_step(f2, FileRequest::Inspect(git));
        lemma_looked_on(f, f2, f3);
        directories_are_opened_by_looking(f3, git);
        let (f4, opened) = open_run(f3, git);
        lemma_looked_on(f, f3, f4);
        if opened is Ok {
            let r = FileRequest::Lock(opened->Ok_0.handle, LockMode::Exclusive);
            lemma_one_look(f4, r);
            let f5 = done_step(f4, r).0;
            lemma_looked_on(f, f4, f5);
            lemma_one_look(f5, FileRequest::MountTable);
            let (f6, table) = live_run(f5);
            lemma_looked_on(f, f5, f6);
            if table is Ok {
                lemma_one_look(f6, FileRequest::KernelPath(h.handle));
                lemma_looked_on(f, f6, boundary_run(f6, table->Ok_0, h).0);
            }
        }
    }
}

proof fn lemma_look(s: Session, f: FileSession, path: Seq<u8>, root: HeldView, git: HeldView)
    ensures
        only_asked(s, look_run(s, f, path, root, git).0),
        only_looked(f, look_run(s, f, path, root, git).1),
{
    lemma_snapshots(s, path);
    let (s1, worktrees) = snapshot_run(s, path, worktree_words());
    lemma_collect(f, root, git);
    let (f1, inventory) = collect_run(f, root, git);
    lemma_plain_checkout(s1, f1, path, git);
    lemma_asked_on(s, s1, plain_checkout_run(s1, f1, path, git).0);
    lemma_looked_on(f, f1, plain_checkout_run(s1, f1, path, git).1);
}

proof fn lemma_settle(
    f: FileSession,
    root: HeldView,
    git: HeldView,
    initial: InventoryView,
    p: PartsView,
)
    ensures
        only_looked(f, settle_run(f, root, git, initial, p).0),
{
    lemma_collect(f, root, git);
    let f1 = collect_run(f, root, git).0;
    lemma_named(f1, git, paths_of(p.private), Seq::empty(), 0);
    let f2 = named_from(f1, git, paths_of(p.private), Seq::empty(), 0).0;
    lemma_looked_on(f, f1, f2);
    lemma_named(f2, git, paths_of(p.refs), Seq::empty(), 0);
    let f3 = named_from(f2, git, paths_of(p.refs), Seq::empty(), 0).0;
    lemma_looked_on(f, f2, f3);
    lemma_named(f3, git, paths_of(p.shared_indexes), Seq::empty(), 0);
    let f4 = named_from(f3, git, paths_of(p.shared_indexes), Seq::empty(), 0).0;
    lemma_looked_on(f, f3, f4);
    lemma_collect(f4, root, git);
    lemma_looked_on(f, f4, collect_run(f4, root, git).0);
}

proof fn lemma_core(f: FileSession, git: HeldView)
    ensures
        only_looked(f, core_run(f, git).0),
{
    lemma_optional_blob(f, git, lit("index"));
    let f1 = optional_blob_run(f, git, lit("index")).0;
    lemma_blob(f1, git, lit("config"));
    let f2 = blob_run(f1, git, lit("config")).0;
    lemma_looked_on(f, f1, f2);
    lemma_optional_blob(f2, git, lit("config.worktree"));
    let f3 = optional_blob_run(f2, git, lit("config.worktree")).0;
    lemma_looked_on(f, f2, f3);
    lemma_blob(f3, git, lit("HEAD"));
    lemma_looked_on(f, f3, blob_run(f3, git, lit("HEAD")).0);
}

proof fn lemma_survey(
    s: Session,
    f: FileSession,
    path: Seq<u8>,
    a: ArgsView,
    root: HeldView,
    git: HeldView,
)
    ensures
        only_asked(s, survey_run(s, f, path, a, root, git).0),
        only_looked(f, survey_run(s, f, path, a, root, git).1),
{
    lemma_look(s, f, path, root, git);
    let (s1, f1, looked) = look_run(s, f, path, root, git);
    if looked is Ok {
        let initial = looked->Ok_0.1;
        lemma_state(s1, path);
        let (s2, state) = state_run(s1, path);
        lemma_asked_on(s, s1, s2);
        lemma_decide(s2, path, a);
        let (s3, decisions) = decide_run(s2, path, a);
        lemma_asked_on(s, s2, s3);
        lemma_classify(s3, f1, path, git, initial.git);
        let (s4, f4, classified) = classify_run(s3, f1, path, git, initial.git);
        lemma_asked_on(s, s3, s4);
        lemma_looked_on(f, f1, f4);
        if classified is Ok {
            lemma_settle(f4, root, git, initial, classified->Ok_0);
            let (f5, kept) = settle_run(f4, root, git, initial, classified->Ok_0);
            lemma_looked_on(f, f4, f5);
            lemma_core(f5, git);
            lemma_looked_on(f, f5, core_run(f5, git).0);
        }
    }
}

/// Planning an adoption changes nothing, whatever comes of it: the file system is only looked
/// at, and Git is only asked, without taking optional locks.
pub proof fn planning_changes_nothing(s: Session, f: FileSession, a: ArgsView, cwd: Seq<u8>)
    ensures
        only_asked(s, plan_run(s, f, a, cwd).0),
        only_looked(f, plan_run(s, f, a, cwd).1),
{
    if checked_args(a) is Ok && a.action == AdoptAction::Fresh {
        lemma_root(s, f, a.path, cwd);
        let (s1, f1, found) = root_run(s, f, a.path, cwd);
        if found is Ok {
            let path = found->Ok_0;
            lemma_hold(f1, path);
            let (f2, held) = hold_run(f1, path);
            lemma_looked_on(f, f1, f2);
            if held is Ok {
                let (root, lock) = held->Ok_0;
                lemma_survey(s1, f2, path, a, root, lock.directory);
                let (s3, f3, surveyed) = survey_run(s1, f2, path, a, root, lock.directory);
                lemma_asked_on(s, s1, s3);
                lemma_looked_on(f, f2, f3);
                held_identities_are_found_by_looking(f3, root.handle);
                lemma_looked_on(f, f3, held_identity_run(f3, root.handle).0);
            }
        }
    }
}

/// Whether a request makes the directory of a transaction, or makes a directory durable.
pub open spec fn opens_transaction(request: FileRequest<Seq<u8>>) -> bool {
    match request {
        FileRequest::MakeDirectoryAt(_, name, _) => exists|nonce: Seq<u8>|
            name == #[trigger] transaction_name(nonce),
        FileRequest::Sync(_) => true,
        _ => false,
    }
}

/// Whether every request between two states of a session only looks, or opens a transaction.
pub open spec fn only_opened(before: FileSession, after: FileSession) -> bool {
    &&& before.calls.len() <= after.calls.len()
    &&& forall|i: int|
        0 <= i < after.calls.len() ==> if i < before.calls.len() {
            #[trigger] after.calls[i] == before.calls[i]
        } else {
            looks(after.calls[i]) || opens_transaction(after.calls[i])
        }
}

proof fn lemma_opened_on(a: FileSession, b: FileSession, c: FileSession)
    requires
        only_opened(a, b),
        only_opened(b, c),
    ensures
        only_opened(a, c),
{
    assert forall|i: int| 0 <= i < c.calls.len() implies if i < a.calls.len() {
        #[trigger] c.calls[i] == a.calls[i]
    } else {
        looks(c.calls[i]) || opens_transaction(c.calls[i])
    } by {
        if i < b.calls.len() {
            assert(c.calls[i] == b.calls[i]);
            if i < a.calls.len() {
                assert(b.calls[i] == a.calls[i]);
            } else {
                assert(looks(b.calls[i]) || opens_transaction(b.calls[i]));
            }
        }
    }
}

proof fn lemma_looking_opens_nothing(a: FileSession, b: FileSession)
    requires
        only_looked(a, b),
    ensures
        only_opened(a, b),
{
}

proof fn lemma_open_transaction(f: FileSession, root: HeldView, nonce: Seq<u8>)
    ensures
        only_opened(f, transaction_run(f, root, transaction_name(nonce)).0),
{
    let name = transaction_name(nonce);
    let r1 = FileRequest::MakeDirectoryAt(root.handle, name, 0x1c0);
    assert(opens_transaction(r1));
    let f1 = done_step(f, r1).0;
    assert(only_opened(f, f1));
    let r2 = FileRequest::Sync(root.handle);
    let f2 = done_step(f1, r2).0;
    assert(only_opened(f1, f2));
    lemma_opened_on(f, f1, f2);
    directories_are_opened_by_looking(f2, child(root.named, name));
    let f3 = open_run(f2, child(root.named, name)).0;
    lemma_looking_opens_nothing(f2, f3);
    lemma_opened_on(f, f2, f3);
}

/// Beginning an adoption changes nothing but that it makes the directory of its transaction: the
/// repository is otherwise only looked at, and Git is only asked.
pub proof fn beginning_only_opens_a_transaction(
    s: Session,
    f: FileSession,
    a: ArgsView,
    cwd: Seq<u8>,
    nonce: AdoptionNonce,
)
    ensures
        only_asked(s, begin_run(s, f, a, cwd, nonce).0),
        only_opened(f, begin_run(s, f, a, cwd, nonce).1),
{
    planning_changes_nothing(s, f, a, cwd);
    let (s1, f1, planned) = plan_run(s, f, a, cwd);
    lemma_looking_opens_nothing(f, f1);
    if planned is Ok && placed(planned->Ok_0) is Ok && nonce is Ok {
        let p = planned->Ok_0;
        let x = placed(p)->Ok_0;
        lemma_open_transaction(f1, p.root, nonce->Ok_0);
        let f2 = transaction_run(f1, p.root, transaction_name(nonce->Ok_0)).0;
        lemma_opened_on(f, f1, f2);
        let r = FileRequest::Exists(x.admin);
        lemma_one_look(f2, r);
        let f3 = found_step(f2, r).0;
        lemma_looking_opens_nothing(f2, f3);
        lemma_opened_on(f, f2, f3);
    }
}

} // verus!
