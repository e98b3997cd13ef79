//! What a clone comes to, by what was asked for.
use vstd::prelude::*;
use crate::bytes::{lit, non_empty, split, trim_line_ends, LF};
use crate::commands::clone::{
    narrow_refspec, postconditions_run, repair_run, set_from, target_of_clone, wanted_refspecs,
    Homes,
};
use crate::commands::clone_run::{
    clone_run, configure_run, fetch_clone_run, plant_run, populate_run, select_run, ClonePlanView,
};
use crate::commands::init::normalized;
use crate::error::ExitClass;
use crate::fsx::directory::HeldView;
use crate::fsx::files::{FailureKind, FileRequest, FileSession};
use crate::fsx::write::Nonces;
use crate::git::config::{
    key_of, one_upstream, remote_head_run, upstreams_from, upstreams_run, values_in, write_upstream,
};
use crate::git::course::{
    later, lemma_later_on, lemma_later_same, lemma_later_step, lemma_ran_between, lemma_ran_step,
    lemma_told_after, lemma_told_before, lemma_told_step, ran, told,
};
use crate::git::runner::{
    args1, args2, args3, args4, args5, args6, invoke, invoke_in, step, InvocationView, OutputView,
    Session,
};
use crate::grove::layout::{lemma_relative_place, relative_place};
use crate::grove::metadata::write_to_config_run;
use crate::path::{child, same_path, within};

verus! {

// -------------------------------------------------------------------------- going on

proof fn lemma_written(s: Session, config: Seq<u8>, remote: Seq<u8>, local: Seq<u8>)
    ensures
        later(s, write_upstream(s, config, remote, local).0),
{
    broadcast use {lemma_later_same, lemma_later_step, lemma_later_on};

}

proof fn lemma_upstreams(
    s: Session,
    bare: Seq<u8>,
    remote: Seq<u8>,
    refspecs: Seq<Seq<u8>>,
    heads: Seq<Seq<u8>>,
    i: int,
)
    ensures
        later(s, upstreams_from(s, bare, remote, refspecs, heads, i).0),
    decreases heads.len() - i,
{
    broadcast use {lemma_later_same, lemma_later_step, lemma_later_on};

    if i < heads.len() {
        assert forall|t: Session| later(
            t,
            (#[trigger] write_upstream(t, child(bare, lit("config")), remote, heads[i])).0,
        ) by {
            lemma_written(t, child(bare, lit("config")), remote, heads[i]);
        }
        let s1 = one_upstream(s, bare, remote, refspecs, heads[i]).0;
        assert(later(s, s1));
        lemma_upstreams(s1, bare, remote, refspecs, heads, i + 1);
    }
}

pub proof fn lemma_all_upstreams(s: Session, bare: Seq<u8>, remote: Seq<u8>, refspecs: Seq<Seq<u8>>)
    ensures
        later(s, upstreams_run(s, bare, remote, refspecs).0),
{
    broadcast use {lemma_later_same, lemma_later_step, lemma_later_on};

    let (s1, heads) = crate::git::config::local_heads_run(s, bare);
    if heads is Ok {
        lemma_upstreams(s1, bare, remote, refspecs, heads->Ok_0, 0);
    }
}

proof fn lemma_set(s: Session, config: Seq<u8>, key: Seq<u8>, values: Seq<Seq<u8>>, i: int)
    ensures
        later(s, set_from(s, config, key, values, i).0),
    decreases values.len() - i,
{
    broadcast use {lemma_later_same, lemma_later_step, lemma_later_on};

    if i < values.len() {
        let s1 = crate::git::config::set_config_run(s, config, key, values[i], true).0;
        lemma_set(s1, config, key, values, i + 1);
    }
}

proof fn lemma_repair(
    s: Session,
    bare: Seq<u8>,
    remote: Seq<u8>,
    narrowed: bool,
    existing: Seq<Seq<u8>>,
)
    ensures
        later(s, repair_run(s, bare, remote, narrowed, existing).0),
{
    broadcast use {lemma_later_same, lemma_later_step, lemma_later_on};

    let (s1, values) = wanted_refspecs(s, bare, remote, narrowed);
    assert(later(s, s1));
    if values is Ok {
        lemma_set(s1, child(bare, lit("config")), key_of("remote.", remote, ".fetch"), values->Ok_0, 0);
    }
}

// ----------------------------------------------------------------------- the repository

/// How Git is asked to clone.
pub open spec fn clones(p: ClonePlanView, bare: Seq<u8>) -> InvocationView {
    InvocationView {
        cwd: Some(p.cwd),
        ..invoke(args2(lit("clone"), lit("--bare")) + p.forwarded + args3(lit("--"), p.url, bare))
    }
}

proof fn lemma_cloned(
    s: Session,
    f: FileSession,
    root: HeldView,
    bare: HeldView,
    p: ClonePlanView,
)
    ensures
        later(s, fetch_clone_run(s, f, root, bare, p).0),
        fetch_clone_run(s, f, root, bare, p).2 is Ok ==> ran(
            s,
            fetch_clone_run(s, f, root, bare, p).0,
            clones(p, bare.anchored),
        ),
{
    broadcast use {lemma_later_same, lemma_later_step, lemma_later_on};

    let call = clones(p, bare.anchored);
    assert(call.args =~= (args2(lit("clone"), lit("--bare")) + p.forwarded).push(lit("--")).push(
        p.url,
    ).push(bare.anchored));
    let (s1, reply) = step(s, call);
    assert forall|t: Session, existing: Seq<Seq<u8>>| later(
        t,
        (#[trigger] repair_run(t, bare.anchored, p.remote, p.narrowed, existing)).0,
    ) by {
        lemma_repair(t, bare.anchored, p.remote, p.narrowed, existing);
    }
    let end = fetch_clone_run(s, f, root, bare, p);
    assert(later(s1, end.0));
    if end.2 is Ok {
        lemma_ran_step(s, call);
        lemma_ran_between(s, s, s1, end.0, call);
    }
}

/// How the remote's own default branch is told: what Git prints for the ref that was set to it.
pub open spec fn asks_default(bare: Seq<u8>, remote: Seq<u8>) -> InvocationView {
    invoke_in(
        bare,
        args3(lit("symbolic-ref"), lit("--quiet"), lit("refs/remotes/") + remote + lit("/HEAD")),
    )
}

/// Whether Git told a remote's default branch on the way from one state to another.
pub open spec fn told_default(
    a: Session,
    b: Session,
    bare: Seq<u8>,
    remote: Seq<u8>,
    branch: Seq<u8>,
) -> bool {
    exists|out: OutputView| #[trigger]
        told(a, b, asks_default(bare, remote), out) && out.status == 0 && trim_line_ends(out.stdout)
            == lit("refs/remotes/") + remote + lit("/") + branch
}

proof fn lemma_remote_head(s: Session, bare: Seq<u8>, remote: Seq<u8>)
    ensures
        later(s, remote_head_run(s, bare, remote).0),
        remote_head_run(s, bare, remote).1 matches Ok(branch) ==> told_default(
            s,
            remote_head_run(s, bare, remote).0,
            bare,
            remote,
            branch,
        ),
{
    broadcast use {lemma_later_same, lemma_later_step, lemma_later_on};

    let call = asks_default(bare, remote);
    let (s1, reply) = step(s, call);
    let (end, r) = remote_head_run(s, bare, remote);
    assert(later(s1, end));
    if r is Ok {
        let out = reply->Ok_0;
        lemma_told_step(s, call);
        lemma_told_before(s, s1, end, call, out);
        let target = trim_line_ends(out.stdout);
        let space = crate::git::config::remote_namespace(remote);
        reveal_strlit("/");
        vstd::utf8::is_ascii_chars_encode_utf8("/"@);
        assert(lit("/") =~= seq![crate::bytes::SLASH]);
        assert(space =~= lit("refs/remotes/") + remote + lit("/"));
        assert(target =~= space + r->Ok_0);
    }
}

proof fn lemma_configured(s: Session, bare: Seq<u8>, remote: Seq<u8>, refspecs: Seq<Seq<u8>>)
    ensures
        later(s, configure_run(s, bare, remote, refspecs).0),
        configure_run(s, bare, remote, refspecs).1 matches Ok(default) ==> {
            let end = configure_run(s, bare, remote, refspecs).0;
            &&& ran(
                s,
                end,
                invoke(
                    args5(
                        lit("config"),
                        lit("--file"),
                        child(bare, lit("config")),
                        lit("worktree.guessRemote"),
                        lit("true"),
                    ),
                ),
            )
            &&& ran(
                s,
                end,
                invoke_in(bare, args4(lit("fetch"), lit("--prune"), lit("--"), remote)),
            )
            &&& ran(
                s,
                end,
                invoke_in(
                    bare,
                    args5(lit("remote"), lit("set-head"), lit("--auto"), lit("--"), remote),
                ),
            )
            &&& told_default(s, end, bare, remote, default)
        },
{
    broadcast use {lemma_later_same, lemma_later_step, lemma_later_on};

    let config = child(bare, lit("config"));
    let guess = invoke(
        args5(lit("config"), lit("--file"), config, lit("worktree.guessRemote"), lit("true")),
    );
    let fetch = invoke_in(bare, args4(lit("fetch"), lit("--prune"), lit("--"), remote));
    let head = invoke_in(
        bare,
        args5(lit("remote"), lit("set-head"), lit("--auto"), lit("--"), remote),
    );
    let (s0, guessed) = step(s, guess);
    let (s1, settled) = crate::commands::clone_run::guess_run(s, config);
    assert(later(s0, s1));
    let (s2, fetched) = step(s1, fetch);
    let (s3, set) = step(s2, head);
    lemma_remote_head(s3, bare, remote);
    let (s4, default) = remote_head_run(s3, bare, remote);
    lemma_all_upstreams(s4, bare, remote, refspecs);
    let (end, r) = configure_run(s, bare, remote, refspecs);
    if r is Ok {
        lemma_ran_step(s, guess);
        lemma_ran_between(s, s, s0, end, guess);
        lemma_ran_step(s1, fetch);
        lemma_ran_between(s, s1, s2, end, fetch);
        lemma_ran_step(s2, head);
        lemma_ran_between(s, s2, s3, end, head);
        let out = choose|out: OutputView| #[trigger]
            told(s3, s4, asks_default(bare, remote), out) && out.status == 0 && trim_line_ends(
                out.stdout,
            ) == lit("refs/remotes/") + remote + lit("/") + default->Ok_0;
        lemma_told_after(s, s3, s4, asks_default(bare, remote), out);
        lemma_told_before(s, s4, end, asks_default(bare, remote), out);
    }
}

// ---------------------------------------------------------------------------- the grove

/// What is recorded of a new grove: one call for each of the four keys.
pub open spec fn records(
    config: Seq<u8>,
    branch: Seq<u8>,
    remote: Seq<u8>,
    word: Seq<u8>,
) -> Seq<InvocationView> {
    Seq::empty().push(writes(config, lit("grove.version"), lit("1"))).push(
        writes(config, lit("grove.defaultBranch"), branch),
    ).push(writes(config, lit("grove.remote"), remote)).push(
        writes(config, lit("grove.publishState"), word),
    )
}

/// How Git is asked to give a key its value.
pub open spec fn writes(config: Seq<u8>, key: Seq<u8>, value: Seq<u8>) -> InvocationView {
    invoke(args5(lit("config"), lit("--file"), config, key, value))
}

pub proof fn lemma_first_version()
    ensures
        vstd::utf8::encode_utf8(
            crate::text::decimal_nat(crate::grove::metadata::FORMAT_VERSION as nat),
        ) == lit("1"),
{
    reveal_strlit("1");
    reveal_with_fuel(crate::text::decimal_nat, 2);
    assert(crate::text::decimal_nat(1) =~= "1"@);
}

proof fn lemma_planted(
    s: Session,
    f: FileSession,
    root: HeldView,
    bare: HeldView,
    remote: Seq<u8>,
    selected: Seq<u8>,
    relative: Seq<u8>,
    pointer: Nonces,
)
    requires
        relative_place(selected) == Ok::<Seq<u8>, crate::error::ErrorView>(relative),
        plant_run(s, f, root, bare, remote, selected, relative, pointer).2 is Ok,
    ensures
        ({
            let (s1, f1, r) = plant_run(s, f, root, bare, remote, selected, relative, pointer);
            let last = s1.calls.last();
            &&& s1.script == s.script
            &&& s1.calls == (s.calls + records(
                child(bare.anchored, lit("config")),
                selected,
                remote,
                lit("published"),
            )).push(last)
            &&& last == invoke_in(
                bare.anchored,
                args5(lit("worktree"), lit("add"), lit("--"), last.args[3], selected),
            )
            &&& root.anchored.len() > 0 ==> same_path(
                last.args[3],
                child(root.anchored, selected),
            )
            &&& r->Ok_0 == root.named
        }),
{
    lemma_first_version();
    let config = child(bare.anchored, lit("config"));
    let (s1, f1, r) = plant_run(s, f, root, bare, remote, selected, relative, pointer);
    let m = crate::commands::init::fresh_record(
        selected,
        Some(remote),
        crate::grove::metadata::PublishState::Published,
    );
    let (t, written) = write_to_config_run(s, config, m);
    assert(t.calls =~= s.calls + records(config, selected, remote, lit("published")));
    let path = s1.calls.last().args[3];
    if root.anchored.len() > 0 {
        lemma_relative_place(root.anchored, selected);
        lemma_relative_place(root.anchored, relative);
    }
}

/// The stages of a clone, one behind the other: what is cloned, how the remote is set up, which
/// branch is taken, and the grove around it.
proof fn lemma_stages(
    s: Session,
    f: FileSession,
    root: HeldView,
    bare: HeldView,
    p: ClonePlanView,
    pointer: Nonces,
)
    requires
        populate_run(s, f, root, bare, p, pointer).2 is Ok,
    ensures
        ({
            let (s1, f1, refspecs) = fetch_clone_run(s, f, root, bare, p);
            let (s2, default) = configure_run(s1, bare.anchored, p.remote, refspecs->Ok_0);
            let selected = if p.explicit is Some {
                p.explicit->Some_0
            } else {
                default->Ok_0
            };
            let (s3, relative) = select_run(s2, root.anchored, selected);
            &&& refspecs is Ok
            &&& default is Ok
            &&& relative is Ok
            &&& populate_run(s, f, root, bare, p, pointer) == plant_run(
                s3,
                f1,
                root,
                bare,
                p.remote,
                selected,
                relative->Ok_0,
                pointer,
            )
        }),
{
    reveal(populate_run);
}

proof fn lemma_selected(s: Session, root: Seq<u8>, selected: Seq<u8>)
    requires
        select_run(s, root, selected).1 is Ok,
    ensures
        ({
            let (s1, relative) = select_run(s, root, selected);
            let known = invoke_in(
                child(root, lit(".bare")),
                args4(
                    lit("show-ref"),
                    lit("--verify"),
                    lit("--quiet"),
                    lit("refs/heads/") + selected,
                ),
            );
            &&& relative_place(selected) == Ok::<Seq<u8>, crate::error::ErrorView>(relative->Ok_0)
            &&& later(s, s1)
            &&& ran(s, s1, known)
        }),
{
    broadcast use {lemma_later_same, lemma_later_step, lemma_later_on};

    let s1 = select_run(s, root, selected).0;
    let check = invoke(args3(lit("check-ref-format"), lit("--branch"), selected));
    let known = invoke_in(
        child(root, lit(".bare")),
        args4(lit("show-ref"), lit("--verify"), lit("--quiet"), lit("refs/heads/") + selected),
    );
    let t = step(s, check).0;
    lemma_ran_step(t, known);
    assert(s1 == step(t, known).0);
    assert(later(s, t) && later(t, s1) && later(s1, s1));
    lemma_ran_between(s, t, s1, s1, known);
}

/// A clone into a grove is the clone that was asked for: of the URL, with the options that are
/// handed on. Its first worktree is on the branch that was asked for, in the place of the branch's
/// name below the root; only where none was asked for is it on what Git tells to be the remote's
/// default. The record names this branch, the remote, and that the grove is published. The remote is
/// fetched, and its `HEAD` set, before.
#[verifier::spinoff_prover]
#[verifier::rlimit(60)]
pub proof fn clones_are_what_was_asked_for(
    s: Session,
    f: FileSession,
    root: HeldView,
    bare: HeldView,
    p: ClonePlanView,
    pointer: Nonces,
)
    requires
        populate_run(s, f, root, bare, p, pointer).2 is Ok,
    ensures
        ({
            let (s1, f1, r) = populate_run(s, f, root, bare, p, pointer);
            let last = s1.calls.last();
            let branch = last.args[4];
            let n = s1.calls.len() as int;
            &&& n >= 5
            &&& last == invoke_in(
                bare.anchored,
                args5(lit("worktree"), lit("add"), lit("--"), last.args[3], branch),
            )
            &&& root.anchored.len() > 0 ==> same_path(last.args[3], child(root.anchored, branch))
            &&& p.explicit matches Some(asked) ==> branch == asked
            &&& p.explicit is None ==> told_default(s, s1, bare.anchored, p.remote, branch)
            &&& s1.calls.subrange(n - 5, n - 1) == records(
                child(bare.anchored, lit("config")),
                branch,
                p.remote,
                lit("published"),
            )
            &&& ran(s, s1, clones(p, bare.anchored))
            &&& ran(
                s,
                s1,
                invoke_in(
                    bare.anchored,
                    args4(lit("fetch"), lit("--prune"), lit("--"), p.remote),
                ),
            )
            &&& ran(
                s,
                s1,
                invoke_in(
                    bare.anchored,
                    args5(lit("remote"), lit("set-head"), lit("--auto"), lit("--"), p.remote),
                ),
            )
            &&& ran(
                s,
                s1,
                writes(
                    child(bare.anchored, lit("config")),
                    lit("worktree.guessRemote"),
                    lit("true"),
                ),
            )
            &&& ran(
                s,
                s1,
                invoke_in(
                    child(root.anchored, lit(".bare")),
                    args4(
                        lit("show-ref"),
                        lit("--verify"),
                        lit("--quiet"),
                        lit("refs/heads/") + branch,
                    ),
                ),
            )
            &&& r->Ok_0 == root.named
        }),
{
    broadcast use {lemma_later_same, lemma_later_step, lemma_later_on};

    lemma_stages(s, f, root, bare, p, pointer);
    lemma_cloned(s, f, root, bare, p);
    let (s1, f1, refspecs) = fetch_clone_run(s, f, root, bare, p);
    lemma_configured(s1, bare.anchored, p.remote, refspecs->Ok_0);
    let (s2, default) = configure_run(s1, bare.anchored, p.remote, refspecs->Ok_0);
    let selected = if p.explicit is Some {
        p.explicit->Some_0
    } else {
        default->Ok_0
    };
    let (s3, relative) = select_run(s2, root.anchored, selected);
    lemma_selected(s2, root.anchored, selected);
    lemma_planted(s3, f1, root, bare, p.remote, selected, relative->Ok_0, pointer);
    let (end, f2, r) = populate_run(s, f, root, bare, p, pointer);
    assert(end == plant_run(s3, f1, root, bare, p.remote, selected, relative->Ok_0, pointer).0);
    let config = child(bare.anchored, lit("config"));
    let four = records(config, selected, p.remote, lit("published"));
    let n = end.calls.len() as int;
    assert(four.len() == 4);
    assert(end.calls.subrange(n - 5, n - 1) =~= four);
    assert(later(s3, end)) by {
        reveal(later);
    }
    let known = invoke_in(
        child(root.anchored, lit(".bare")),
        args4(lit("show-ref"), lit("--verify"), lit("--quiet"), lit("refs/heads/") + selected),
    );
    assert(later(s, s1) && later(s1, s2) && later(s, s2));
    lemma_ran_between(s, s2, s3, end, known);
    assert(later(s2, end) && later(s1, end));
    lemma_ran_between(s, s, s1, end, clones(p, bare.anchored));
    lemma_ran_between(
        s,
        s1,
        s2,
        end,
        invoke_in(bare.anchored, args4(lit("fetch"), lit("--prune"), lit("--"), p.remote)),
    );
    lemma_ran_between(
        s,
        s1,
        s2,
        end,
        invoke_in(
            bare.anchored,
            args5(lit("remote"), lit("set-head"), lit("--auto"), lit("--"), p.remote),
        ),
    );
    lemma_ran_between(s, s1, s2, end, writes(config, lit("worktree.guessRemote"), lit("true")));
    if p.explicit is None {
        let call = asks_default(bare.anchored, p.remote);
        let out = choose|out: OutputView| #[trigger]
            told(s1, s2, call, out) && out.status == 0 && trim_line_ends(out.stdout) == lit(
                "refs/remotes/",
            ) + p.remote + lit("/") + default->Ok_0;
        lemma_told_after(s, s1, s2, call, out);
        lemma_told_before(s, s2, end, call, out);
    }
}

// ------------------------------------------------------------------------- what is fetched

/// A clone that came without refspecs is given them, each put in place of none: those of every
/// branch that it has where it was narrowed, and otherwise the one for all branches. Each maps a
/// branch to the same name in the remote's own namespace.
pub proof fn clones_without_refspecs_are_given_them(
    s: Session,
    bare: Seq<u8>,
    remote: Seq<u8>,
    narrowed: bool,
)
    requires
        repair_run(s, bare, remote, narrowed, seq![]).1 is Ok,
    ensures
        ({
            let (s1, r) = repair_run(s, bare, remote, narrowed, seq![]);
            let specs = r->Ok_0;
            &&& !narrowed ==> specs == seq![
                lit("+refs/heads/*:refs/remotes/") + remote + lit("/*"),
            ]
            &&& narrowed ==> specs.len() > 0 && forall|i: int|
                0 <= i < specs.len() ==> exists|branch: Seq<u8>| #[trigger]
                    specs[i] == #[trigger] one_branch(branch, remote)
            &&& forall|i: int|
                0 <= i < specs.len() ==> ran(
                    s,
                    s1,
                    invoke(
                        args6(
                            lit("config"),
                            lit("--file"),
                            child(bare, lit("config")),
                            lit("--add"),
                            key_of("remote.", remote, ".fetch"),
                            #[trigger] specs[i],
                        ),
                    ),
                )
        }),
{
    broadcast use {lemma_later_same, lemma_later_step, lemma_later_on};

    let none: Seq<Seq<u8>> = seq![];
    let (s1, values) = wanted_refspecs(s, bare, remote, narrowed);
    let config = child(bare, lit("config"));
    let key = key_of("remote.", remote, ".fetch");
    let (s2, set) = set_from(s1, config, key, values->Ok_0, 0);
    let (end, r) = repair_run(s, bare, remote, narrowed, none);
    let specs = r->Ok_0;
    assert(specs == values->Ok_0);
    assert(later(s, s1));
    assert(later(s2, end));
    assert forall|i: int| 0 <= i < specs.len() implies ran(
        s,
        end,
        invoke(
            args6(
                lit("config"),
                lit("--file"),
                config,
                lit("--add"),
                key,
                #[trigger] specs[i],
            ),
        ),
    ) by {
        lemma_set_each(s1, config, key, specs, 0, i);
        lemma_ran_between(
            s,
            s1,
            s2,
            end,
            invoke(
                args6(lit("config"), lit("--file"), config, lit("--add"), key, specs[i]),
            ),
        );
    }
    if narrowed {
        let heads = crate::git::config::local_heads_run(s, bare).1->Ok_0;
        assert forall|i: int| 0 <= i < specs.len() implies exists|branch: Seq<u8>| #[trigger]
            specs[i] == #[trigger] one_branch(branch, remote) by {
            assert(specs[i] == narrow_refspec(heads[i], remote));
            let branch = match crate::bytes::without_prefix(heads[i], lit("refs/heads/")) {
                Some(b) => b,
                None => heads[i],
            };
            assert(specs[i] == one_branch(branch, remote));
        }
    }
}

/// The refspec that maps one branch to the same name in a remote's namespace.
pub open spec fn one_branch(branch: Seq<u8>, remote: Seq<u8>) -> Seq<u8> {
    lit("+refs/heads/") + branch + lit(":refs/remotes/") + remote + lit("/") + branch
}

proof fn lemma_set_each(
    s: Session,
    config: Seq<u8>,
    key: Seq<u8>,
    values: Seq<Seq<u8>>,
    from: int,
    i: int,
)
    requires
        0 <= from <= i < values.len(),
        set_from(s, config, key, values, from).1 is Ok,
    ensures
        ran(
            s,
            set_from(s, config, key, values, from).0,
            invoke(
                args6(lit("config"), lit("--file"), config, lit("--add"), key, values[i]),
            ),
        ),
    decreases i - from,
{
    broadcast use {lemma_later_same, lemma_later_step, lemma_later_on};

    let call = invoke(
        args6(lit("config"), lit("--file"), config, lit("--add"), key, values[from]),
    );
    let s1 = step(s, call).0;
    lemma_set(s1, config, key, values, from + 1);
    let end = set_from(s, config, key, values, from).0;
    if i == from {
        lemma_ran_step(s, call);
        lemma_ran_between(s, s, s1, end, call);
    } else {
        lemma_set_each(s1, config, key, values, from + 1, i);
        lemma_ran_between(
            s,
            s1,
            end,
            end,
            invoke(
                args6(lit("config"), lit("--file"), config, lit("--add"), key, values[i]),
            ),
        );
    }
}

// ------------------------------------------------------------------------------ the place

/// A directory that was asked for is where the clone goes, whatever its URL; from the current
/// directory, unless it is absolute or begins with a home directory.
pub proof fn clones_go_where_they_are_asked_to(
    url: Seq<u8>,
    other: Seq<u8>,
    dir: Seq<u8>,
    cwd: Seq<u8>,
    homes: Homes,
)
    ensures
        target_of_clone(url, Some(dir), cwd, homes) == target_of_clone(
            other,
            Some(dir),
            cwd,
            homes,
        ),
        dir.len() > 0 && dir[0] != crate::bytes::TILDE ==> target_of_clone(
            url,
            Some(dir),
            cwd,
            homes,
        ) == normalized(child(cwd, dir)),
{
}

/// What is cloned without a URL, or to a place that is refused, reaches neither Git nor the file
/// system.
pub proof fn refused_clones_touch_nothing(
    s: Session,
    f: FileSession,
    g: FileSession,
    dir: Option<Seq<u8>>,
    homes: Homes,
    p: ClonePlanView,
    pointer: Nonces,
)
    requires
        p.url.len() == 0 || target_of_clone(p.url, dir, p.cwd, homes) is Err,
    ensures
        clone_run(s, f, g, dir, homes, p, pointer).0 == s,
        clone_run(s, f, g, dir, homes, p, pointer).1 == f,
        clone_run(s, f, g, dir, homes, p, pointer).2 == g,
        clone_run(s, f, g, dir, homes, p, pointer).3 is Err,
        p.url.len() == 0 ==> clone_run(s, f, g, dir, homes, p, pointer).3->Err_0.class
            == ExitClass::Usage,
{
}

// ----------------------------------------------------------------------- what is accepted

/// A clone is accepted only where Git says that it is bare, that it has just the remote that was
/// asked for, with just the URL that was asked for, and that its `HEAD` is a commit; where its objects
/// lie in its own directory for them; and where it leans on no other database.
pub proof fn clones_are_accepted_by_what_they_are(
    s: Session,
    f: FileSession,
    bare: Seq<u8>,
    url: Seq<u8>,
    remote: Seq<u8>,
)
    requires
        postconditions_run(s, f, bare, url, remote).2 is Ok,
    ensures
        ({
            let config = child(bare, lit("config"));
            let is_bare = invoke_in(bare, args2(lit("rev-parse"), lit("--is-bare-repository")));
            let remotes = invoke_in(bare, args1(lit("remote")));
            let urls = invoke(
                args6(
                    lit("config"),
                    lit("--null"),
                    lit("--file"),
                    config,
                    lit("--get-all"),
                    lit("remote.") + remote + lit(".url"),
                ),
            );
            let specs = invoke(
                args6(
                    lit("config"),
                    lit("--null"),
                    lit("--file"),
                    config,
                    lit("--get-all"),
                    lit("remote.") + remote + lit(".fetch"),
                ),
            );
            let head = invoke_in(
                bare,
                args3(lit("rev-parse"), lit("--verify"), lit("HEAD^{commit}")),
            );
            let store = invoke_in(
                bare,
                args3(lit("rev-parse"), lit("--git-path"), lit("objects")),
            );
            let c1 = s.calls.push(is_bare);
            let c2 = c1.push(remotes);
            let c3 = c2.push(urls);
            let c4 = c3.push(specs);
            let c5 = c4.push(head);
            let c6 = c5.push(store);
            let said = |calls: Seq<InvocationView>| (s.script)(calls)->Ok_0;
            let objects = FileRequest::Canonicalize(trim_line_ends(said(c6).stdout));
            let own = FileRequest::Canonicalize(child(bare, lit("objects")));
            let whole = FileRequest::Canonicalize(bare);
            let other = FileRequest::Inspect(child(bare, lit("objects/info/alternates")));
            let d1 = f.calls.push(objects);
            let d2 = d1.push(own);
            let d3 = d2.push(whole);
            let d4 = d3.push(other);
            let seen = |calls: Seq<FileRequest<Seq<u8>>>| (f.script)(calls)->Bytes_0;
            &&& (s.script)(c1) is Ok && trim_line_ends(said(c1).stdout) == lit("true")
            &&& (s.script)(c2) is Ok && non_empty(split(said(c2).stdout, LF)) == seq![remote]
            &&& (s.script)(c3) is Ok && values_in(
                said(c3),
                lit("remote.") + remote + lit(".url"),
            ) == Ok::<Seq<Seq<u8>>, crate::error::ErrorView>(seq![url])
            &&& (s.script)(c5) is Ok && said(c5).status == 0
            &&& (s.script)(c6) is Ok
            &&& (f.script)(d1) is Bytes && (f.script)(d2) is Bytes && (f.script)(d3) is Bytes
            &&& same_path(seen(d1), seen(d2))
            &&& within(seen(d1), seen(d3))
            &&& !same_path(seen(d1), seen(d3))
            &&& (f.script)(d4) is Failed
            &&& (f.script)(d4)->Failed_0.kind == FailureKind::NotFound
        }),
{
}

/// A clone fails only where one of its stages does: the clone itself, the setting up of its remote,
/// the branch that was asked for or else the remote's default, or the grove around it.
pub proof fn clones_fail_only_where_a_stage_does(
    s: Session,
    f: FileSession,
    root: HeldView,
    bare: HeldView,
    p: ClonePlanView,
    pointer: Nonces,
    branch: Seq<u8>,
)
    requires
        ({
            let (s1, f1, refspecs) = fetch_clone_run(s, f, root, bare, p);
            let (s2, default) = configure_run(s1, bare.anchored, p.remote, refspecs->Ok_0);
            let (s3, relative) = select_run(s2, root.anchored, branch);
            &&& refspecs is Ok
            &&& default is Ok
            &&& branch == if p.explicit is Some {
                p.explicit->Some_0
            } else {
                default->Ok_0
            }
            &&& relative is Ok
            &&& plant_run(s3, f1, root, bare, p.remote, branch, relative->Ok_0, pointer).2 is Ok
        }),
    ensures
        populate_run(s, f, root, bare, p, pointer).2 is Ok,
{
    reveal(populate_run);
}

/// A branch is taken for the first worktree where Git accepts its name and has it, and where its name
/// is a place; and only there.
pub proof fn branches_of_the_clone_are_taken(s: Session, root: Seq<u8>, branch: Seq<u8>)
    ensures
        ({
            let check = invoke(args3(lit("check-ref-format"), lit("--branch"), branch));
            let known = invoke_in(
                child(root, lit(".bare")),
                args4(
                    lit("show-ref"),
                    lit("--verify"),
                    lit("--quiet"),
                    lit("refs/heads/") + branch,
                ),
            );
            let named = (s.script)(s.calls.push(check));
            let there = (s.script)(s.calls.push(check).push(known));
            select_run(s, root, branch).1 is Ok <==> {
                &&& branch.len() == 0 || branch[0] != crate::bytes::DASH
                &&& named is Ok && named->Ok_0.status == 0
                &&& there is Ok && there->Ok_0.status == 0
                &&& relative_place(branch) is Ok
            }
        }),
{
}

} // verus!
