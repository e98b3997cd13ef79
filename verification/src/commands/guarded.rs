//! Making a grove runs every child behind the guard of its two directories.
use vstd::prelude::*;
use crate::commands::clone::{
    bare_checked, objects_asked, postconditions_run, refspecs_checked, registrations_run,
    remote_checked, repair_run, set_from, url_checked, wanted_refspecs,
};
use crate::commands::clone_run::{
    configure_run, fetch_clone_run, plant_run, select_run, ClonePlanView,
};
use crate::commands::init::{
    first_worktree_run, guide_run, open_grove_run, repository_run, PlanView,
};
use crate::fsx::directory::{validate_run, HeldView};
use crate::fsx::files::FileSession;
use crate::fsx::looking::{lemma_looked_on, only_looked, validations_are_made_by_looking};
use crate::fsx::write::Nonces;
use crate::git::config::{
    local_heads_run, one_upstream, remote_head_run, upstreams_from, upstreams_run,
};
use crate::git::guard::{beneath, both_run, guarded_after, guarded_session, guarded_step};
use crate::git::runner::{InvocationView, Session};
use crate::grove::metadata::{write_to_config_run, MetadataView};

verus! {

/// Whether a session is another one that went on: what it answers, and what it stands on, is the
/// same.
pub open spec fn goes_on(a: Session, b: Session) -> bool {
    &&& b.script == a.script
    &&& b.beneath == a.beneath
}

proof fn lemma_both(f: FileSession, root: HeldView, bare: HeldView)
    ensures
        only_looked(f, both_run(f, root, bare).0),
{
    validations_are_made_by_looking(f, root);
    let f1 = validate_run(f, root).0;
    validations_are_made_by_looking(f1, bare);
    lemma_looked_on(f, f1, validate_run(f1, bare).0);
}

/// A guard changes nothing on disk by itself: all it does beside running children is to look.
pub proof fn guards_only_look(
    s: Session,
    f: FileSession,
    root: HeldView,
    bare: HeldView,
    calls: Seq<InvocationView>,
)
    ensures
        only_looked(f, guarded_after(s, f, root, bare, calls).1),
    decreases calls.len(),
{
    if calls.len() > 0 {
        guards_only_look(s, f, root, bare, calls.drop_last());
        let (s1, f1) = guarded_after(s, f, root, bare, calls.drop_last());
        reveal(guarded_step);
        lemma_both(f1, root, bare);
        let f2 = both_run(f1, root, bare).0;
        lemma_both(f2, root, bare);
        lemma_looked_on(f, f1, f2);
        lemma_looked_on(f, f2, both_run(f2, root, bare).0);
    }
}

/// A guard adds no child and asks for none in another order: each child that is asked for is run as
/// it is, or not run at all where a directory was found to be another one.
pub proof fn guards_run_what_is_asked_for(
    s: Session,
    f: FileSession,
    root: HeldView,
    bare: HeldView,
    calls: Seq<InvocationView>,
    i: InvocationView,
)
    ensures
        ({
            let (s1, f1) = guarded_after(s, f, root, bare, calls);
            let (s2, f2) = guarded_after(s, f, root, bare, calls.push(i));
            &&& goes_on(s1, s2)
            &&& s2.calls == if both_run(f1, root, bare).1 is Ok {
                s1.calls.push(i)
            } else {
                s1.calls
            }
        }),
{
    reveal(guarded_step);
    assert(calls.push(i).drop_last() =~= calls);
}

// ---------------------------------------------------------------------- what a command asks

proof fn lemma_recorded(s: Session, config: Seq<u8>, m: MetadataView)
    ensures
        goes_on(s, write_to_config_run(s, config, m).0),
{
}

proof fn lemma_created(
    s: Session,
    f: FileSession,
    root: HeldView,
    bare: HeldView,
    plan: PlanView,
    pointer: Nonces,
)
    ensures
        goes_on(s, repository_run(s, f, root, bare, plan, pointer).0),
{
    assert forall|t: Session, config: Seq<u8>, m: MetadataView| goes_on(
        t,
        (#[trigger] write_to_config_run(t, config, m)).0,
    ) by {
        lemma_recorded(t, config, m);
    }
}

proof fn lemma_initialized(
    s: Session,
    f: FileSession,
    root: HeldView,
    bare: HeldView,
    plan: PlanView,
    guide: Seq<u8>,
    link: Seq<u8>,
    pointer: Nonces,
    drawn: Nonces,
)
    ensures
        goes_on(
            s,
            crate::commands::init::populate_run(
                s,
                f,
                root,
                bare,
                plan,
                guide,
                link,
                pointer,
                drawn,
            ).0,
        ),
{
    reveal(crate::commands::init::populate_run);
    lemma_created(s, f, root, bare, plan, pointer);
    let (s1, f1, r1) = repository_run(s, f, root, bare, plan, pointer);
    let f2 = guide_run(f1, root, bare, guide, link, drawn).0;
    assert(goes_on(s1, first_worktree_run(s1, f2, root, bare, plan).0));
}

/// Initializing a grove runs every child behind the guard of the two directories that were opened:
/// the runner ends where the guarded children have led it, and the guard has only looked.
pub proof fn initializing_runs_behind_the_guard(
    s: Session,
    f: FileSession,
    g: FileSession,
    root: Seq<u8>,
    plan: PlanView,
    guide: Seq<u8>,
    link: Seq<u8>,
    pointer: Nonces,
    drawn: Nonces,
    held: HeldView,
    bare: HeldView,
)
    requires
        open_grove_run(f, root).3 == Ok::<(HeldView, HeldView), crate::error::ErrorView>(
            (held, bare),
        ),
    ensures
        ({
            let asked = crate::commands::init::populate_run(
                guarded_session(s, g, held, bare),
                open_grove_run(f, root).0,
                held,
                bare,
                plan,
                guide,
                link,
                pointer,
                drawn,
            ).0.calls;
            let (s1, f1, g1, r) = crate::commands::init::transact_run(
                s,
                f,
                g,
                root,
                plan,
                guide,
                link,
                pointer,
                drawn,
            );
            &&& (s1, g1) == guarded_after(s, g, held, bare, asked)
            &&& only_looked(g, g1)
        }),
{
    let guarded = guarded_session(s, g, held, bare);
    let f1 = open_grove_run(f, root).0;
    lemma_initialized(guarded, f1, held, bare, plan, guide, link, pointer, drawn);
    let s2 = crate::commands::init::populate_run(
        guarded,
        f1,
        held,
        bare,
        plan,
        guide,
        link,
        pointer,
        drawn,
    ).0;
    assert(beneath(s2) == guarded_after(s, g, held, bare, s2.calls));
    guards_only_look(s, g, held, bare, s2.calls);
}

proof fn lemma_checked(s: Session, f: FileSession, bare: Seq<u8>, url: Seq<u8>, remote: Seq<u8>)
    ensures
        goes_on(s, postconditions_run(s, f, bare, url, remote).0),
{
    let s1 = bare_checked(s, bare).0;
    assert(goes_on(s, s1));
    let s2 = remote_checked(s1, bare, remote).0;
    assert(goes_on(s1, s2));
    let s3 = url_checked(s2, bare, remote, url).0;
    assert(goes_on(s2, s3));
    let s4 = refspecs_checked(s3, bare, remote).0;
    assert(goes_on(s3, s4));
    let s5 = objects_asked(s4, bare).0;
    assert(goes_on(s4, s5));
    assert forall|f1: FileSession| goes_on(s5, (#[trigger] registrations_run(s5, f1, bare)).0) by {}
}

proof fn lemma_set(s: Session, config: Seq<u8>, key: Seq<u8>, values: Seq<Seq<u8>>, i: int)
    ensures
        goes_on(s, set_from(s, config, key, values, i).0),
    decreases values.len() - i,
{
    if i < values.len() {
        let s1 = crate::git::config::set_config_run(s, config, key, values[i], true).0;
        lemma_set(s1, config, key, values, i + 1);
    }
}

proof fn lemma_repaired(
    s: Session,
    bare: Seq<u8>,
    remote: Seq<u8>,
    narrowed: bool,
    existing: Seq<Seq<u8>>,
)
    ensures
        goes_on(s, repair_run(s, bare, remote, narrowed, existing).0),
{
    let s1 = wanted_refspecs(s, bare, remote, narrowed).0;
    assert(goes_on(s, s1));
    assert forall|config: Seq<u8>, key: Seq<u8>, values: Seq<Seq<u8>>| goes_on(
        s1,
        (#[trigger] set_from(s1, config, key, values, 0)).0,
    ) by {
        lemma_set(s1, config, key, values, 0);
    }
}

proof fn lemma_fetched(s: Session, f: FileSession, root: HeldView, bare: HeldView, p: ClonePlanView)
    ensures
        goes_on(s, fetch_clone_run(s, f, root, bare, p).0),
{
    assert forall|t: Session, f1: FileSession| goes_on(
        t,
        (#[trigger] postconditions_run(t, f1, bare.anchored, p.url, p.remote)).0,
    ) by {
        lemma_checked(t, f1, bare.anchored, p.url, p.remote);
    }
    assert forall|t: Session, existing: Seq<Seq<u8>>| goes_on(
        t,
        (#[trigger] repair_run(t, bare.anchored, p.remote, p.narrowed, existing)).0,
    ) by {
        lemma_repaired(t, bare.anchored, p.remote, p.narrowed, existing);
    }
}

proof fn lemma_upstreams(
    s: Session,
    bare: Seq<u8>,
    remote: Seq<u8>,
    refspecs: Seq<Seq<u8>>,
    heads: Seq<Seq<u8>>,
    i: int,
)
    ensures
        goes_on(s, upstreams_from(s, bare, remote, refspecs, heads, i).0),
    decreases heads.len() - i,
{
    if i < heads.len() {
        let s1 = one_upstream(s, bare, remote, refspecs, heads[i]).0;
        assert(goes_on(s, s1));
        lemma_upstreams(s1, bare, remote, refspecs, heads, i + 1);
    }
}

proof fn lemma_configured(s: Session, bare: Seq<u8>, remote: Seq<u8>, refspecs: Seq<Seq<u8>>)
    ensures
        goes_on(s, configure_run(s, bare, remote, refspecs).0),
{
    assert forall|t: Session| goes_on(t, (#[trigger] remote_head_run(t, bare, remote)).0) by {}
    assert forall|t: Session| goes_on(
        t,
        (#[trigger] upstreams_run(t, bare, remote, refspecs)).0,
    ) by {
        let (t1, heads) = local_heads_run(t, bare);
        if heads is Ok {
            lemma_upstreams(t1, bare, remote, refspecs, heads->Ok_0, 0);
        }
    }
}

proof fn lemma_planted(
    s: Session,
    f: FileSession,
    root: HeldView,
    bare: HeldView,
    remote: Seq<u8>,
    selected: Seq<u8>,
    relative: Seq<u8>,
    pointer: Nonces,
)
    ensures
        goes_on(s, plant_run(s, f, root, bare, remote, selected, relative, pointer).0),
{
    assert forall|t: Session, config: Seq<u8>, m: MetadataView| goes_on(
        t,
        (#[trigger] write_to_config_run(t, config, m)).0,
    ) by {
        lemma_recorded(t, config, m);
    }
}

proof fn lemma_cloned(
    s: Session,
    f: FileSession,
    root: HeldView,
    bare: HeldView,
    p: ClonePlanView,
    pointer: Nonces,
)
    ensures
        goes_on(
            s,
            crate::commands::clone_run::populate_run(s, f, root, bare, p, pointer).0,
        ),
{
    reveal(crate::commands::clone_run::populate_run);
    lemma_fetched(s, f, root, bare, p);
    let (s1, f1, refspecs) = fetch_clone_run(s, f, root, bare, p);
    if refspecs is Ok {
        lemma_configured(s1, bare.anchored, p.remote, refspecs->Ok_0);
        let (s2, default) = configure_run(s1, bare.anchored, p.remote, refspecs->Ok_0);
        if default is Ok {
            let selected = crate::commands::clone_run::selected_branch(p.explicit, default->Ok_0);
            let (s3, relative) = select_run(s2, root.anchored, selected);
            assert(goes_on(s2, s3));
            if relative is Ok {
                lemma_planted(
                    s3,
                    f1,
                    root,
                    bare,
                    p.remote,
                    selected,
                    relative->Ok_0,
                    pointer,
                );
            }
        }
    }
}

/// Cloning into a grove runs every child behind the guard of the two directories that were opened:
/// the runner ends where the guarded children have led it, and the guard has only looked.
pub proof fn cloning_runs_behind_the_guard(
    s: Session,
    f: FileSession,
    g: FileSession,
    root: Seq<u8>,
    p: ClonePlanView,
    pointer: Nonces,
    held: HeldView,
    bare: HeldView,
)
    requires
        open_grove_run(f, root).3 == Ok::<(HeldView, HeldView), crate::error::ErrorView>(
            (held, bare),
        ),
    ensures
        ({
            let asked = crate::commands::clone_run::populate_run(
                guarded_session(s, g, held, bare),
                open_grove_run(f, root).0,
                held,
                bare,
                p,
                pointer,
            ).0.calls;
            let (s1, f1, g1, r) = crate::commands::clone_run::transact_run(
                s,
                f,
                g,
                root,
                p,
                pointer,
            );
            &&& (s1, g1) == guarded_after(s, g, held, bare, asked)
            &&& only_looked(g, g1)
        }),
{
    let guarded = guarded_session(s, g, held, bare);
    let f1 = open_grove_run(f, root).0;
    lemma_cloned(guarded, f1, held, bare, p, pointer);
    let s2 = crate::commands::clone_run::populate_run(guarded, f1, held, bare, p, pointer).0;
    assert(beneath(s2) == guarded_after(s, g, held, bare, s2.calls));
    guards_only_look(s, g, held, bare, s2.calls);
}

} // verus!
