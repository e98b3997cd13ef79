//! What setting up an agent does, by what was asked for.
use vstd::prelude::*;
use vstd::utf8::encode_utf8;
use crate::bytes::{lit, trim_line_ends};
use crate::commands::setup::{
    agent_text, conclude_run, find_from, finish_run, holding_branch, named_worktree, prepare_run,
    recorded_agents, records, resolve_run, target_for, toplevel_run, unknown_values, with_attempt,
    Agent, MergedView, NamesView, ProvisioningView, TargetView,
};
use crate::commands::setup_run::{apply_run, setup_run, Attempt};
use crate::error::{ErrorView, ExitClass};
use crate::fsx::durable::{put_in_place, written_files_hold_the_contents};
use crate::fsx::files::{
    answer_to as file_answer_to, bytes_step, AnswerView, FailureKind, FileRequest, FileSession,
};
use crate::fsx::write::{write_run, Draws, TempStrategy};
use crate::git::config::config_values_run;
use crate::git::runner::{args2, args4, args6, invoke, InvocationView, Session};
use crate::git::worktrees::{worktrees_run, RecordView};
use crate::grove::layout::{lemma_relative_place, relative_place};
use crate::hooks::with_entry;
use crate::path::{child, same_path};
use crate::text::lossy_text;

verus! {

/// Whether a path is that of a worktree of the list, and not of the bare repository.
pub open spec fn listed(list: Seq<RecordView>, path: Seq<u8>) -> bool {
    exists|i: int| 0 <= i < list.len() && !(#[trigger] list[i]).bare && list[i].path == path
}

/// What a path is called once links are followed, by an answer about it.
pub open spec fn followed(path: Seq<u8>, answer: AnswerView) -> Seq<u8> {
    if answer is Bytes {
        answer->Bytes_0
    } else {
        path
    }
}

/// Whether two paths were found to lead to one place: they are the same, or the file system, asked
/// for both, called them the same.
pub open spec fn one_place(before: FileSession, after: FileSession, a: Seq<u8>, b: Seq<u8>) -> bool {
    same_path(a, b) || exists|k: int|
        before.calls.len() <= k && k + 1 < after.calls.len() && #[trigger] after.calls[k]
            == FileRequest::Canonicalize(a) && after.calls[k + 1] == FileRequest::Canonicalize(b)
            && same_path(
            followed(a, file_answer_to(after, k)),
            followed(b, file_answer_to(after, k + 1)),
        )
}

/// Whether a path was found to lead to a place, however that place is written.
#[verifier::opaque]
pub open spec fn stands_for(
    before: FileSession,
    after: FileSession,
    path: Seq<u8>,
    wanted: Seq<u8>,
) -> bool {
    exists|place: Seq<u8>|
        same_path(place, wanted) && #[trigger] one_place(before, after, path, place)
}

proof fn lemma_found(f: FileSession, list: Seq<RecordView>, path: Seq<u8>, i: int)
    requires
        0 <= i,
    ensures
        ({
            let (f1, r) = find_from(f, list, path, i);
            &&& f1.script == f.script
            &&& f.calls.is_prefix_of(f1.calls)
            &&& r matches Some(p) ==> listed(list, p) && one_place(f, f1, p, path)
        }),
    decreases list.len() - i,
{
    if i < list.len() {
        if list[i].bare {
            lemma_found(f, list, path, i + 1);
        } else if same_path(list[i].path, path) {
            assert(listed(list, list[i].path));
        } else {
            let a = FileRequest::Canonicalize(list[i].path);
            let b = FileRequest::Canonicalize(path);
            let g = FileSession { calls: f.calls.push(a).push(b), ..f };
            let k = f.calls.len() as int;
            assert(g.calls.take(k + 1) =~= f.calls.push(a));
            assert(g.calls.take(k + 2) =~= g.calls);
            let (f1, r) = find_from(f, list, path, i);
            if same_path(
                followed(list[i].path, file_answer_to(g, k)),
                followed(path, file_answer_to(g, k + 1)),
            ) {
                assert(f1 == g);
                assert(f1.calls[k] == a && f1.calls[k + 1] == b);
                assert(listed(list, list[i].path));
                assert(one_place(f, f1, list[i].path, path));
            } else {
                lemma_found(g, list, path, i + 1);
                assert(find_from(f, list, path, i) == find_from(g, list, path, i + 1));
                if r is Some && !same_path(r->Some_0, path) {
                    let j = choose|j: int|
                        g.calls.len() <= j && j + 1 < f1.calls.len() && #[trigger] f1.calls[j]
                            == FileRequest::Canonicalize(r->Some_0) && f1.calls[j + 1]
                            == FileRequest::Canonicalize(path) && same_path(
                            followed(r->Some_0, file_answer_to(f1, j)),
                            followed(path, file_answer_to(f1, j + 1)),
                        );
                    assert(f.calls.len() <= j);
                    assert(f1.calls[j] == FileRequest::Canonicalize(r->Some_0));
                }
            }
        }
    }
}

/// A worktree that is asked for by name is the one that is set up: one that Git lists, in the place
/// of that name below the root.
pub proof fn worktrees_are_set_up_by_name(
    s: Session,
    f: FileSession,
    root: Seq<u8>,
    name: Seq<u8>,
    default: Option<Seq<u8>>,
    cwd: Seq<u8>,
)
    requires
        root.len() > 0,
        resolve_run(s, f, root, default, Some(name), cwd).2 is Ok,
    ensures
        ({
            let (s1, f1, r) = resolve_run(s, f, root, default, Some(name), cwd);
            &&& listed(worktrees_run(s, root).1->Ok_0, r->Ok_0)
            &&& stands_for(f, f1, r->Ok_0, child(root, name))
        }),
{
    let list = worktrees_run(s, root).1->Ok_0;
    lemma_named(f, root, list, name);
}

proof fn lemma_named(f: FileSession, root: Seq<u8>, list: Seq<RecordView>, name: Seq<u8>)
    requires
        root.len() > 0,
        named_worktree(f, root, list, name).1 is Ok,
    ensures
        ({
            let (f1, r) = named_worktree(f, root, list, name);
            &&& listed(list, r->Ok_0)
            &&& stands_for(f, f1, r->Ok_0, child(root, name))
        }),
{
    let relative = relative_place(name)->Ok_0;
    let place = child(root, relative);
    assert(same_path(place, child(root, name))) by {
        lemma_relative_place(root, name);
    }
    let (f1, r) = find_from(f, list, place, 0);
    assert(listed(list, r->Some_0) && one_place(f, f1, r->Some_0, place)) by {
        lemma_found(f, list, place, 0);
    }
    let (f2, r2) = named_worktree(f, root, list, name);
    assert(f2 == f1);
    assert(r2->Ok_0 == r->Some_0);
    assert(listed(list, r2->Ok_0));
    assert(stands_for(f, f2, r2->Ok_0, child(root, name))) by {
        reveal(stands_for);
        assert(one_place(f, f2, r2->Ok_0, place));
    }
}

/// The name decides alone: neither the directory that the set-up is asked for from nor the default
/// branch has a part in it.
pub proof fn names_decide_alone(
    s: Session,
    f: FileSession,
    root: Seq<u8>,
    name: Seq<u8>,
    default: Option<Seq<u8>>,
    cwd: Seq<u8>,
    other_default: Option<Seq<u8>>,
    other_cwd: Seq<u8>,
)
    ensures
        resolve_run(s, f, root, default, Some(name), cwd) == resolve_run(
            s,
            f,
            root,
            other_default,
            Some(name),
            other_cwd,
        ),
{
}

/// Where no worktree is named, the one that the current directory lies in is set up: Git is asked
/// which it is, from there.
pub proof fn the_current_worktree_is_set_up(
    s: Session,
    f: FileSession,
    root: Seq<u8>,
    default: Option<Seq<u8>>,
    cwd: Seq<u8>,
)
    requires
        resolve_run(s, f, root, default, None, cwd).2 is Ok,
        toplevel_run(worktrees_run(s, root).0, cwd).1 is Ok,
    ensures
        ({
            let listing = worktrees_run(s, root);
            let ask = InvocationView {
                cwd: Some(cwd),
                ..invoke(args2(lit("rev-parse"), lit("--show-toplevel")))
            };
            let (s1, f1, r) = resolve_run(s, f, root, default, None, cwd);
            let told = (s.script)(s1.calls);
            &&& s1.calls == listing.0.calls.push(ask)
            &&& told is Ok
            &&& told->Ok_0.status == 0
            &&& listed(listing.1->Ok_0, r->Ok_0)
            &&& one_place(f, f1, r->Ok_0, trim_line_ends(told->Ok_0.stdout))
        }),
{
    let (s1, r) = worktrees_run(s, root);
    assert(s1.script == s.script);
    let toplevel = toplevel_run(s1, cwd).1->Ok_0;
    lemma_found(f, r->Ok_0, toplevel, 0);
}

proof fn lemma_holding(list: Seq<RecordView>, branch: Seq<u8>, i: int)
    requires
        0 <= i,
    ensures
        holding_branch(list, branch, i) matches Some(p) ==> exists|k: int|
            i <= k < list.len() && !(#[trigger] list[k]).bare && list[k].branch == Some(branch)
                && list[k].path == p,
        holding_branch(list, branch, i) is None ==> forall|k: int|
            i <= k < list.len() ==> (#[trigger] list[k]).bare || list[k].branch != Some(branch),
    decreases list.len() - i,
{
    if i < list.len() {
        lemma_holding(list, branch, i + 1);
    }
}

/// Outside every worktree, the one that has the recorded default branch checked out is set up.
/// Where there is none, or none is recorded, that is for a person to decide.
pub proof fn elsewhere_the_default_branch_is_set_up(
    s: Session,
    f: FileSession,
    root: Seq<u8>,
    default: Option<Seq<u8>>,
    cwd: Seq<u8>,
)
    requires
        worktrees_run(s, root).1 is Ok,
        toplevel_run(worktrees_run(s, root).0, cwd).1 is Err,
    ensures
        ({
            let list = worktrees_run(s, root).1->Ok_0;
            let r = resolve_run(s, f, root, default, None, cwd).2;
            let held = |k: int|
                0 <= k < list.len() && !list[k].bare && default is Some && list[k].branch == default;
            &&& r is Ok <==> exists|k: int| #[trigger] held(k)
            &&& r matches Ok(p) ==> exists|k: int| #[trigger] held(k) && list[k].path == p
            &&& r matches Err(e) ==> e.class == ExitClass::NeedsDecision
        }),
{
    let list = worktrees_run(s, root).1->Ok_0;
    let held = |k: int|
        0 <= k < list.len() && !list[k].bare && default is Some && list[k].branch == default;
    if default is Some {
        let branch = default->Some_0;
        lemma_holding(list, branch, 0);
        if holding_branch(list, branch, 0) is Some {
            let k = choose|k: int|
                0 <= k < list.len() && !(#[trigger] list[k]).bare && list[k].branch == Some(branch)
                    && list[k].path == holding_branch(list, branch, 0)->Some_0;
            assert(held(k));
        } else {
            assert forall|k: int| !(#[trigger] held(k)) by {
                if 0 <= k < list.len() {
                    assert(list[k].bare || list[k].branch != Some(branch));
                }
            }
        }
    }
}

/// An agent that was set up is recorded under its name, for worktrees to come: the names are read
/// from the grove's configuration, and where this one is not among them it is added to them.
pub proof fn set_up_agents_are_recorded(
    s: Session,
    n: NamesView,
    root: Seq<u8>,
    worktree: Seq<u8>,
    a: Agent,
)
    requires
        conclude_run(s, n, root, worktree, a).1 is Ok,
    ensures
        ({
            let config = child(child(root, lit(".bare")), lit("config"));
            let name = match a {
                Agent::Claude => encode_utf8(n.claude),
                Agent::Codex => lit("codex"),
                Agent::Copilot => lit("copilot"),
            };
            let read = invoke(
                args6(
                    lit("config"),
                    lit("--null"),
                    lit("--file"),
                    config,
                    lit("--get-all"),
                    lit("grove.hookAgent"),
                ),
            );
            let write = invoke(
                args6(
                    lit("config"),
                    lit("--file"),
                    config,
                    lit("--add"),
                    lit("grove.hookAgent"),
                    name,
                ),
            );
            let (s1, values) = config_values_run(s, config, lit("grove.hookAgent"));
            &&& s1.calls == s.calls.push(read)
            &&& values is Ok
            &&& conclude_run(s, n, root, worktree, a).0.calls == if values->Ok_0.contains(name) {
                s.calls.push(read)
            } else {
                s.calls.push(read).push(write)
            }
        }),
{
}

/// An agent that is recorded is one whose name is; and each goes by one name of its own.
pub proof fn recorded_agents_are_those_named(n: NamesView, values: Seq<Seq<u8>>, a: Agent)
    requires
        n.claude != "codex"@,
        n.claude != "copilot"@,
    ensures
        recorded_agents(n, values).contains(a) <==> values.contains(
            match a {
                Agent::Claude => encode_utf8(n.claude),
                Agent::Codex => lit("codex"),
                Agent::Copilot => lit("copilot"),
            },
        ),
{
    let name = encode_utf8(agent_text(n, a));
    assert(records(n, values, a) <==> values.contains(name)) by {
        if records(n, values, a) {
            let i = choose|i: int|
                0 <= i < values.len() && crate::commands::setup::agent_named(
                    n,
                    #[trigger] values[i],
                ) == Some(a);
            crate::commands::setup::agents_read_back(n, a, values[i]);
        }
        if values.contains(name) {
            let i = choose|i: int| 0 <= i < values.len() && values[i] == name;
            crate::commands::setup::agents_read_back(n, a, values[i]);
        }
    }
    let first = crate::commands::setup::if_recorded(n, values, Agent::Claude);
    let second = crate::commands::setup::if_recorded(n, values, Agent::Codex);
    let third = crate::commands::setup::if_recorded(n, values, Agent::Copilot);
    let all = recorded_agents(n, values);
    assert(all == first + second + third);
    if records(n, values, a) {
        let k = match a {
            Agent::Claude => 0,
            Agent::Codex => first.len() as int,
            Agent::Copilot => (first + second).len() as int,
        };
        assert(all[k] == a);
    } else if all.contains(a) {
        let k = choose|k: int| 0 <= k < all.len() && all[k] == a;
        if k < first.len() {
            assert(all[k] == first[k]);
        } else if k < first.len() + second.len() {
            assert(all[k] == second[k - first.len()]);
        } else {
            assert(all[k] == third[k - first.len() - second.len()]);
        }
    }
}

/// What is recorded that names no agent is spoken of, and nothing else is.
pub proof fn unknown_agents_are_spoken_of(n: NamesView, values: Seq<Seq<u8>>, t: Seq<char>, k: int)
    requires
        0 <= k <= values.len(),
    ensures
        unknown_values(n, values, k).contains(t) <==> exists|i: int|
            0 <= i < k && lossy_text(#[trigger] values[i]) == t && values[i] != encode_utf8(n.claude)
                && values[i] != lit("codex") && values[i] != lit("copilot"),
    decreases k,
{
    if k > 0 {
        unknown_agents_are_spoken_of(n, values, t, k - 1);
        let before = unknown_values(n, values, k - 1);
        let after = unknown_values(n, values, k);
        let shown = lossy_text(values[k - 1]);
        if after == before.push(shown) {
            assert(after[before.len() as int] == shown);
            assert forall|x: Seq<char>| before.contains(x) implies after.contains(x) by {
                let i = choose|i: int| 0 <= i < before.len() && before[i] == x;
                assert(after[i] == x);
            }
            if after.contains(t) && !before.contains(t) {
                assert(t == shown);
            }
        }
        if before.contains(t) {
            let i = choose|i: int|
                0 <= i < k - 1 && lossy_text(#[trigger] values[i]) == t && values[i] != encode_utf8(
                    n.claude,
                ) && values[i] != lit("codex") && values[i] != lit("copilot");
            assert(lossy_text(values[i]) == t);
        }
    }
}

/// What is made of an agent's file is made of what it held, read from its place in the worktree; a
/// file that is not there held nothing. It is not one that Git keeps.
pub proof fn files_are_read_before_they_are_written(
    s: Session,
    f: FileSession,
    worktree: Seq<u8>,
    t: TargetView,
)
    requires
        prepare_run(s, f, worktree, t).2 is Ok,
    ensures
        ({
            let (s1, f1, r) = prepare_run(s, f, worktree, t);
            let ask = InvocationView {
                cwd: Some(worktree),
                ..invoke(
                    args4(lit("ls-files"), lit("--error-unmatch"), lit("--"), child(t.dir, t.file)),
                )
            };
            let last = f1.calls.last();
            let told = (f1.script)(f1.calls);
            &&& s1.calls == s.calls.push(ask)
            &&& (s.script)(s.calls.push(ask)) matches Ok(out)
            &&& out.status == 1
            &&& f1.calls.len() > 0
            &&& last is ReadAll ==> told == AnswerView::Bytes(r->Ok_0.existing)
            &&& last !is ReadAll ==> last == FileRequest::OpenFileAt(r->Ok_0.directory, t.file)
                && r->Ok_0.existing.len() == 0 && told is Failed && told->Failed_0.kind
                == FailureKind::NotFound
        }),
{
}

/// An agent's file is kept out of Git's sight before it is written: the common exclude file is
/// given a line with its place in a worktree, and keeps all it held. Then the file holds what was
/// made of it, under its own name.
pub proof fn agents_files_are_excluded_and_written(
    f: FileSession,
    root: Seq<u8>,
    worktree: Seq<u8>,
    t: TargetView,
    directory: u64,
    merged: MergedView,
    excluded: Draws,
    configured: Draws,
)
    requires
        finish_run(f, root, worktree, t, directory, merged, excluded, configured).1 is Ok,
    ensures
        ({
            let f1 = finish_run(
                f,
                root,
                worktree,
                t,
                directory,
                merged,
                excluded,
                configured,
            ).0;
            let path = child(root, lit(".bare/info/exclude"));
            let answer = (f.script)(f.calls.push(FileRequest::Read(path)));
            let held = if answer is Bytes {
                answer->Bytes_0
            } else {
                Seq::empty()
            };
            let begun = FileSession { calls: f.calls.push(FileRequest::Read(path)), ..f };
            let contents = with_entry(held, lit("/") + child(t.dir, t.file));
            &&& merged is Ok
            &&& answer is Bytes || (answer is Failed && answer->Failed_0.kind
                == FailureKind::NotFound)
            &&& write_run(begun, path, contents, TempStrategy::Auto, excluded).1 is Ok
            &&& put_in_place(
                write_run(begun, path, contents, TempStrategy::Auto, excluded).0,
                f1,
                merged->Ok_0,
                directory,
                t.file,
            )
        }),
{
    let path = child(root, lit(".bare/info/exclude"));
    let (begun, read) = bytes_step(f, FileRequest::Read(path));
    let held = match read {
        Ok(bytes) => bytes,
        Err(_) => Seq::<u8>::empty(),
    };
    let contents = with_entry(held, lit("/") + child(t.dir, t.file));
    let middle = write_run(begun, path, contents, TempStrategy::Auto, excluded).0;
    written_files_hold_the_contents(
        middle,
        child(worktree, child(t.dir, t.file)),
        merged->Ok_0,
        directory,
        child(worktree, t.dir),
        t.file,
        TempStrategy::Auto,
        configured,
    );
}

/// An agent that could be configured is told of as configured, with its name and the place of its
/// file; one that could not is warned of, with its name, the worktree and the reason. Neither is told
/// of as the other.
pub proof fn attempts_are_told_apart(
    p: ProvisioningView,
    n: NamesView,
    worktree: Seq<u8>,
    a: Agent,
    e: ErrorView,
)
    ensures
        ({
            let done = with_attempt(p, n, worktree, a, Ok(()));
            let failed = with_attempt(p, n, worktree, a, Err(e));
            let t = target_for(n, a);
            &&& done.warnings == p.warnings
            &&& done.configured == p.configured.push(
                "configured the "@ + agent_text(n, a) + " hook: "@ + lossy_text(
                    child(worktree, child(t.dir, t.file)),
                ),
            )
            &&& failed.configured == p.configured
            &&& failed.warnings.len() == p.warnings.len() + 1
            &&& failed.warnings.take(p.warnings.len() as int) == p.warnings
            &&& has_text(failed.warnings.last(), agent_text(n, a))
            &&& has_text(failed.warnings.last(), lossy_text(worktree))
            &&& has_text(failed.warnings.last(), crate::error::error_text(e))
        }),
{
    let failed = with_attempt(p, n, worktree, a, Err(e));
    assert(failed.warnings.take(p.warnings.len() as int) =~= p.warnings);
    let name = agent_text(n, a);
    let place = lossy_text(worktree);
    let why = crate::error::error_text(e);
    let one = "could not configure the "@;
    let two = " hook in "@;
    let three = " ("@;
    let four = "); the worktree exists but is not protected -- run `git grove setup --agent "@;
    let five = "` from inside it"@;
    let whole = one + name + two + place + three + why + four + name + five;
    assert(failed.warnings.last() == whole);
    lemma_in_text(one, name, two + place + three + why + four + name + five, whole);
    lemma_in_text(one + name + two, place, three + why + four + name + five, whole);
    lemma_in_text(one + name + two + place + three, why, four + name + five, whole);
}

/// Whether a text stands in another.
pub open spec fn has_text(all: Seq<char>, part: Seq<char>) -> bool {
    exists|i: int| 0 <= i && i + part.len() <= all.len() && #[trigger] all.subrange(
        i,
        i + part.len(),
    ) == part
}

proof fn lemma_in_text(before: Seq<char>, part: Seq<char>, behind: Seq<char>, all: Seq<char>)
    requires
        all =~= before + part + behind,
    ensures
        has_text(all, part),
{
    let i = before.len() as int;
    assert(all.subrange(i, i + part.len()) =~= part);
}

/// An agent is recorded only once its file is in place: where that fails, the set-up ends there, and
/// Git is told nothing; where it does not, the agent is recorded.
pub proof fn only_configured_agents_are_recorded(
    s: Session,
    f: FileSession,
    root: Seq<u8>,
    worktree: Seq<u8>,
    n: NamesView,
    a: Agent,
    attempt: Attempt,
)
    ensures
        ({
            let (s1, f1, applied) = apply_run(s, f, root, worktree, n, a, attempt);
            let (s2, f2, r) = setup_run(s, f, root, worktree, n, a, attempt);
            &&& f2 == f1
            &&& applied is Err ==> s2 == s1 && r is Err && r->Err_0 == applied->Err_0
            &&& applied is Ok ==> s2 == conclude_run(s1, n, root, worktree, a).0
            &&& r is Ok ==> applied is Ok && conclude_run(s1, n, root, worktree, a).1 is Ok
        }),
{
}

proof fn lemma_finds(f: FileSession, list: Seq<RecordView>, path: Seq<u8>, i: int, k: int)
    requires
        0 <= i <= k < list.len(),
        !list[k].bare,
        same_path(list[k].path, path),
    ensures
        find_from(f, list, path, i).1 is Some,
    decreases k - i,
{
    if i < k {
        if list[i].bare {
            lemma_finds(f, list, path, i + 1, k);
        } else if !same_path(list[i].path, path) {
            let a = FileRequest::Canonicalize(list[i].path);
            let b = FileRequest::Canonicalize(path);
            let g = FileSession { calls: f.calls.push(a).push(b), ..f };
            lemma_finds(g, list, path, i + 1, k);
            let (f1, same) = crate::commands::setup::same_worktree_run(f, list[i].path, path);
            assert(f1 == g);
        }
    }
}

/// A worktree that Git lists in the place of a name is found by that name.
pub proof fn listed_worktrees_are_found_by_name(
    f: FileSession,
    root: Seq<u8>,
    list: Seq<RecordView>,
    name: Seq<u8>,
    k: int,
)
    requires
        relative_place(name) is Ok,
        0 <= k < list.len(),
        !list[k].bare,
        same_path(list[k].path, child(root, relative_place(name)->Ok_0)),
    ensures
        named_worktree(f, root, list, name).1 is Ok,
{
    lemma_finds(f, list, child(root, relative_place(name)->Ok_0), 0, k);
}

} // verus!
