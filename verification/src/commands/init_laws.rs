//! What a new grove is, by what was asked for.
use vstd::prelude::*;
use crate::bytes::{lit, trim_line_ends};
use crate::commands::clone_laws::{lemma_first_version, writes};
use crate::commands::init::{
    first_worktree_run, guide_run, init_run, normalized, populate_run, preflight_run,
    repository_run, requested_root, resolved_names, start_branch_run, vacate_run, PlanView,
};
use crate::error::ErrorView;
use crate::fsx::directory::HeldView;
use crate::fsx::files::FileSession;
use crate::fsx::write::{symlink_absent_run, write_absent_run, Nonces, TempStrategy};
use crate::git::runner::{
    answer_to, args2, args3, args4, args6, invoke, invoke_in, InvocationView, Session,
};
use crate::grove::layout::{lemma_relative_place, relative_place};
use crate::path::{absolute, child, joined_names, parts, same_path, Part};

verus! {

/// The branch of a new grove is the one that was asked for; only where none was, Git is asked which
/// one it would choose. Its place is the one of its name.
pub proof fn new_groves_have_the_branch_asked_for(s: Session, branch: Option<Seq<u8>>)
    requires
        preflight_run(s, branch).1 is Ok,
    ensures
        ({
            let (s1, r) = preflight_run(s, branch);
            let plan = r->Ok_0;
            let check = invoke(args3(lit("check-ref-format"), lit("--branch"), plan.expected));
            let ask = invoke(args2(lit("var"), lit("GIT_DEFAULT_BRANCH")));
            &&& plan.initial == branch
            &&& relative_place(plan.expected) == Ok::<Seq<u8>, ErrorView>(plan.relative)
            &&& branch matches Some(b) ==> plan.expected == b && s1.calls == s.calls.push(check)
            &&& branch is None ==> s1.calls == s.calls.push(ask).push(check) && (s.script)(
                s.calls.push(ask),
            ) is Ok && plan.expected == trim_line_ends(
                (s.script)(s.calls.push(ask))->Ok_0.stdout,
            )
        }),
{
}

/// How Git is asked for a new repository.
pub open spec fn makes_repository(initial: Option<Seq<u8>>, bare: Seq<u8>) -> InvocationView {
    if initial is Some {
        invoke(
            args6(
                lit("init"),
                lit("--quiet"),
                lit("--bare"),
                lit("--initial-branch"),
                initial->Some_0,
                bare,
            ),
        )
    } else {
        invoke(args4(lit("init"), lit("--quiet"), lit("--bare"), bare))
    }
}

/// A new grove is a bare repository that starts on the planned branch, which Git confirms; its record
/// names that branch, no remote, and that it is not published; and its one worktree is on that branch,
/// in the place of the branch's name below the root. Git is asked for nothing else.
pub proof fn new_groves_are_as_planned(
    s: Session,
    f: FileSession,
    root: HeldView,
    bare: HeldView,
    plan: PlanView,
    guide: Seq<u8>,
    link: Seq<u8>,
    pointer: Nonces,
    drawn: Nonces,
)
    requires
        relative_place(plan.expected) == Ok::<Seq<u8>, ErrorView>(plan.relative),
        populate_run(s, f, root, bare, plan, guide, link, pointer, drawn).2 is Ok,
    ensures
        ({
            let (s1, f1, r) = populate_run(s, f, root, bare, plan, guide, link, pointer, drawn);
            let config = child(bare.anchored, lit("config"));
            let n = s.calls.len() as int;
            let last = s1.calls.last();
            let head = invoke_in(
                bare.anchored,
                args3(lit("symbolic-ref"), lit("--short"), lit("HEAD")),
            );
            &&& s1.calls == s.calls.push(makes_repository(plan.initial, bare.anchored)).push(
                head,
            ).push(writes(config, lit("grove.version"), lit("1"))).push(
                writes(config, lit("grove.defaultBranch"), plan.expected),
            ).push(writes(config, lit("grove.publishState"), lit("unpublished"))).push(last)
            &&& last == invoke_in(
                bare.anchored,
                args6(
                    lit("worktree"),
                    lit("add"),
                    lit("--orphan"),
                    lit("-b"),
                    plan.expected,
                    last.args[5],
                ),
            )
            &&& root.anchored.len() > 0 ==> same_path(
                last.args[5],
                child(root.anchored, plan.expected),
            )
            &&& r->Ok_0 == root.named
            &&& answer_to(s1, n + 1) is Ok
            &&& trim_line_ends(answer_to(s1, n + 1)->Ok_0.stdout) == plan.expected
        }),
{
    reveal(populate_run);
    lemma_first_version();
    let (s1, f1, made) = repository_run(s, f, root, bare, plan, pointer);
    lemma_repository(s, f, root, bare, plan, pointer);
    let (f2, guided) = guide_run(f1, root, bare, guide, link, drawn);
    let (s2, f3, r) = first_worktree_run(s1, f2, root, bare, plan);
    let n = s.calls.len() as int;
    let first = s.calls.push(makes_repository(plan.initial, bare.anchored));
    assert(s2.calls.take(n + 2) =~= s1.calls.take(n + 2));
    assert(vacate_run(f2, root, bare, plan.relative).1 is Ok);
    if root.anchored.len() > 0 {
        lemma_relative_place(root.anchored, plan.expected);
        lemma_relative_place(root.anchored, plan.relative);
    }
}

proof fn lemma_repository(
    s: Session,
    f: FileSession,
    root: HeldView,
    bare: HeldView,
    plan: PlanView,
    pointer: Nonces,
)
    requires
        repository_run(s, f, root, bare, plan, pointer).2 is Ok,
    ensures
        ({
            let (s1, f1, r) = repository_run(s, f, root, bare, plan, pointer);
            let config = child(bare.anchored, lit("config"));
            let n = s.calls.len() as int;
            let head = invoke_in(
                bare.anchored,
                args3(lit("symbolic-ref"), lit("--short"), lit("HEAD")),
            );
            &&& s1.script == s.script
            &&& s1.calls == s.calls.push(makes_repository(plan.initial, bare.anchored)).push(
                head,
            ).push(writes(config, lit("grove.version"), lit("1"))).push(
                writes(config, lit("grove.defaultBranch"), plan.expected),
            ).push(writes(config, lit("grove.publishState"), lit("unpublished")))
            &&& answer_to(s1, n + 1) is Ok
            &&& trim_line_ends(answer_to(s1, n + 1)->Ok_0.stdout) == plan.expected
        }),
{
    lemma_first_version();
    let make = makes_repository(plan.initial, bare.anchored);
    let head = invoke_in(bare.anchored, args3(lit("symbolic-ref"), lit("--short"), lit("HEAD")));
    let t = Session { calls: s.calls.push(make), ..s };
    let s1 = repository_run(s, f, root, bare, plan, pointer).0;
    assert(s1 == start_branch_run(t, bare, plan).0);
    let n = s.calls.len() as int;
    assert(s1.calls.take(n + 2) =~= t.calls.push(head));
}

/// The guide is left in the root as it was given, and the link leads to it by name.
pub proof fn guides_are_left_as_given(
    f: FileSession,
    root: HeldView,
    bare: HeldView,
    guide: Seq<u8>,
    link: Seq<u8>,
    drawn: Nonces,
)
    requires
        guide_run(f, root, bare, guide, link, drawn).1 is Ok,
    ensures
        exists|f1: FileSession|
            (#[trigger] write_absent_run(
                f1,
                child(root.anchored, lit("AGENTS.md")),
                guide,
                TempStrategy::Auto,
                drawn,
            )).1 == Ok::<bool, ErrorView>(true) && symlink_absent_run(
                write_absent_run(
                    f1,
                    child(root.anchored, lit("AGENTS.md")),
                    guide,
                    TempStrategy::Auto,
                    drawn,
                ).0,
                child(root.anchored, link),
                lit("AGENTS.md"),
            ).1 == Ok::<bool, ErrorView>(true),
{
    let f1 = crate::git::guard::both_run(f, root, bare).0;
    assert(write_absent_run(
        f1,
        child(root.anchored, lit("AGENTS.md")),
        guide,
        TempStrategy::Auto,
        drawn,
    ).1 == Ok::<bool, ErrorView>(true));
}

/// A grove goes where it was asked to: into the directory that was given, from the current one, and
/// into the current one where none was.
pub proof fn new_groves_go_where_they_are_asked_to(dir: Seq<u8>, cwd: Seq<u8>)
    ensures
        requested_root(Some(dir), cwd) == child(cwd, dir),
        requested_root(None, cwd) == cwd,
{
}

proof fn lemma_resolved(list: Seq<Part>, i: int, names: Seq<Seq<u8>>)
    requires
        0 <= i <= list.len(),
        forall|k: int| i <= k < list.len() ==> #[trigger] list[k] is Normal,
    ensures
        resolved_names(list, i, names) is Ok,
        resolved_names(list, i, names)->Ok_0.map_values(|n: Seq<u8>| Part::Normal(n))
            == names.map_values(|n: Seq<u8>| Part::Normal(n)) + list.subrange(
            i,
            list.len() as int,
        ),
    decreases list.len() - i,
{
    if i < list.len() {
        assert(list[i] is Normal);
        let name = list[i]->Normal_0;
        lemma_resolved(list, i + 1, names.push(name));
        assert(names.push(name).map_values(|n: Seq<u8>| Part::Normal(n)) + list.subrange(
            i + 1,
            list.len() as int,
        ) =~= names.map_values(|n: Seq<u8>| Part::Normal(n)) + list.subrange(
            i,
            list.len() as int,
        ));
    } else {
        assert(names.map_values(|n: Seq<u8>| Part::Normal(n)) + list.subrange(
            i,
            list.len() as int,
        ) =~= names.map_values(|n: Seq<u8>| Part::Normal(n)));
    }
}

/// An absolute path that has only names is normal: what it comes to has the same components.
pub proof fn plain_paths_come_to_themselves(path: Seq<u8>)
    requires
        absolute(path),
        forall|k: int| 0 < k < parts(path).len() ==> #[trigger] parts(path)[k] is Normal,
    ensures
        normalized(path) is Ok,
        same_path(normalized(path)->Ok_0, path),
{
    let list = parts(path);
    let none: Seq<Seq<u8>> = seq![];
    assert(list[0] == Part::Root);
    lemma_resolved(list, 1, none);
    assert(resolved_names(list, 0, none) == resolved_names(list, 1, none));
    crate::commands::init::normal_paths_hold_only_names(path);
    let names = resolved_names(list, 0, none)->Ok_0;
    let below = names.map_values(|n: Seq<u8>| Part::Normal(n));
    assert(below =~= list.subrange(1, list.len() as int));
    reveal_strlit("/");
    vstd::utf8::is_ascii_chars_encode_utf8("/"@);
    assert(lit("/") =~= seq![crate::bytes::SLASH]);
    let result = lit("/") + joined_names(names);
    let base = lit("/");
    crate::bytes::lemma_find_bounds(base, crate::bytes::SLASH, 0);
    lemma_root_parts();
    if names.len() > 0 {
        crate::path::joined_names_split_again(names);
        crate::path::joining_adds_components(base, joined_names(names));
        assert(child(base, joined_names(names)) =~= result);
        assert(parts(result) =~= list);
    } else {
        assert(joined_names(names) =~= seq![]);
        assert(result =~= base);
        assert(parts(result) =~= list);
    }
}

proof fn lemma_root_parts()
    ensures
        parts(seq![crate::bytes::SLASH]) == seq![Part::Root],
{
    let base: Seq<u8> = seq![crate::bytes::SLASH];
    let none: Seq<u8> = seq![];
    crate::bytes::lemma_split_joined(none, none, crate::bytes::SLASH);
    assert(none.push(crate::bytes::SLASH) + none =~= base);
    crate::bytes::lemma_find_bounds(none, crate::bytes::SLASH, 0);
    assert(crate::bytes::split(none, crate::bytes::SLASH) =~= seq![none]);
    let fields = crate::bytes::split(base, crate::bytes::SLASH);
    assert(fields.len() == 2);
    assert(fields[0] == none && fields[1] == none);
    assert(crate::path::field_parts(fields, 0) =~= seq![]);
    assert(crate::path::field_parts(fields, 1) =~= seq![]);
    assert(crate::path::field_parts(fields, 2) =~= seq![]);
    assert(parts(base) =~= seq![Part::Root]);
}

/// A place or a branch that is refused reaches no file.
pub proof fn refused_groves_touch_nothing(
    s: Session,
    f: FileSession,
    g: FileSession,
    dir: Option<Seq<u8>>,
    branch: Option<Seq<u8>>,
    cwd: Seq<u8>,
    guide: Seq<u8>,
    link: Seq<u8>,
    pointer: Nonces,
    drawn: Nonces,
)
    requires
        normalized(requested_root(dir, cwd)) is Err || preflight_run(s, branch).1 is Err,
    ensures
        init_run(s, f, g, dir, branch, cwd, guide, link, pointer, drawn).1 == f,
        init_run(s, f, g, dir, branch, cwd, guide, link, pointer, drawn).2 == g,
        init_run(s, f, g, dir, branch, cwd, guide, link, pointer, drawn).3 is Err,
{
}

/// A branch that was asked for is accepted where Git accepts its name, and its name is a place.
pub proof fn valid_branches_are_accepted(s: Session, branch: Seq<u8>)
    ensures
        ({
            let check = invoke(args3(lit("check-ref-format"), lit("--branch"), branch));
            let named = (s.script)(s.calls.push(check));
            preflight_run(s, Some(branch)).1 is Ok <==> {
                &&& named is Ok && named->Ok_0.status == 0
                &&& relative_place(branch) is Ok
            }
        }),
{
}

} // verus!
