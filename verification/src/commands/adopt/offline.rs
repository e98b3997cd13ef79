//! What an adoption asks of Git, from its first phase to its last.
use vstd::prelude::*;
use crate::bytes::lit;
use crate::commands::adopt::evidence::{NamedView, OriginalView};
use crate::commands::adopt::execute::{
    complete_run, default_call, execute_from, install_default_run, make_default_run, next_drawn,
    other_drawn, phase_run, record_of, second_run, PhaseDraws,
};
use crate::commands::adopt::forward::{
    install_bare_run, install_private_run, mark_bare_run, mark_main_run, migrate_from,
    migrate_one_run, payload_of, reason_of, register_call, register_run, snapshots_run, SiteView,
};
use crate::commands::adopt::journal::{finish_run, JournalView, PlanView, PHASES};
use crate::commands::adopt::queries::{flag_words, quiet, stage_words, status_words};
use crate::commands::adopt::steps::{
    config_bool_run, unlock_run, unset_layout_run, unset_run,
};
use crate::fsx::files::FileSession;
use crate::fsx::write::{Draws, Nonces};
use crate::git::runner::{args4, grown, invoke_in, lits, step, InvocationView, Session};
use crate::grove::discover::{bare_of, config_of};
use crate::grove::metadata::{write_to_config_run, MetadataView};
use crate::path::child;

verus! {

/// What an adoption asks of Git: to read and to write configuration, what the repository and the
/// checkout are like, to register the checkout's worktree without touching a file, to make the
/// other worktree where there is to be one, and to unlock the two.
pub open spec fn converts(i: InvocationView, x: SiteView, p: PlanView, why: Seq<u8>) -> bool {
    i.args.len() > 0 && {
        ||| i.args[0] == lit("config")
        ||| i.args[0] == lit("rev-parse")
        ||| i.args[0] == lit("status")
        ||| i.args[0] == lit("ls-files")
        ||| i.args[0] == lit("show-ref")
        ||| i.args.len() == 4 && i.args[0] == lit("worktree") && i.args[1] == lit("unlock")
        ||| i == register_call(bare_of(x.root), p.decisions.payload_head, payload_of(x), why)
        ||| x.default is Some && exists|remote: Option<Seq<u8>>|
            i == #[trigger] default_call(
                bare_of(x.root),
                why,
                child(x.root, x.default->Some_0),
                p.decisions.default_branch,
                remote,
            )
    }
}

/// Whether that is all that lies between two states of a session.
#[verifier::opaque]
pub open spec fn only_converts(
    a: Session,
    b: Session,
    x: SiteView,
    p: PlanView,
    why: Seq<u8>,
) -> bool {
    &&& grown(a, b)
    &&& forall|i: int|
        a.calls.len() <= i < b.calls.len() ==> converts(#[trigger] b.calls[i], x, p, why)
}

broadcast proof fn lemma_on(
    a: Session,
    b: Session,
    c: Session,
    x: SiteView,
    p: PlanView,
    why: Seq<u8>,
)
    requires
        #[trigger] only_converts(a, b, x, p, why),
        #[trigger] only_converts(b, c, x, p, why),
    ensures
        only_converts(a, c, x, p, why),
{
    reveal(only_converts);
    assert forall|i: int| 0 <= i < a.calls.len() implies #[trigger] c.calls[i] == a.calls[i] by {
        assert(c.calls[i] == b.calls[i]);
        assert(b.calls[i] == a.calls[i]);
    }
    assert forall|i: int| a.calls.len() <= i < c.calls.len() implies converts(
        #[trigger] c.calls[i],
        x,
        p,
        why,
    ) by {
        if i < b.calls.len() {
            assert(c.calls[i] == b.calls[i]);
        }
    }
}

broadcast proof fn lemma_still(a: Session, x: SiteView, p: PlanView, why: Seq<u8>)
    ensures
        #[trigger] only_converts(a, a, x, p, why),
{
    reveal(only_converts);
}

proof fn lemma_one(s: Session, i: InvocationView, x: SiteView, p: PlanView, why: Seq<u8>)
    requires
        converts(i, x, p, why),
    ensures
        only_converts(s, step(s, i).0, x, p, why),
{
    reveal(only_converts);
}

proof fn lemma_word(s: Session, i: InvocationView, x: SiteView, p: PlanView, why: Seq<u8>)
    requires
        i.args.len() > 0,
        i.args[0] == lit("config") || i.args[0] == lit("rev-parse") || i.args[0] == lit("status")
            || i.args[0] == lit("ls-files") || i.args[0] == lit("show-ref"),
    ensures
        only_converts(s, step(s, i).0, x, p, why),
{
    lemma_one(s, i, x, p, why);
}

// ---------------------------------------------------------------------- configuration

proof fn lemma_unset_layout(s: Session, config: Seq<u8>, x: SiteView, p: PlanView, why: Seq<u8>)
    ensures
        only_converts(s, unset_layout_run(s, config).0, x, p, why),
{
    broadcast use lemma_on;

    assert(only_converts(s, unset_run(s, config, "core.bare").0, x, p, why)) by {
        reveal(only_converts);
    }
    let s1 = unset_run(s, config, "core.bare").0;
    assert(only_converts(s1, unset_run(s1, config, "core.worktree").0, x, p, why)) by {
        reveal(only_converts);
    }
}

proof fn lemma_mark_bare(s: Session, bare: Seq<u8>, x: SiteView, p: PlanView, why: Seq<u8>)
    ensures
        only_converts(s, mark_bare_run(s, bare).0, x, p, why),
{
    broadcast use lemma_on;

    let config = child(bare, lit("config"));
    lemma_unset_layout(s, config, x, p, why);
    let (s1, unset) = unset_layout_run(s, config);
    if unset is Ok {
        assert(only_converts(s1, mark_bare_run(s, bare).0, x, p, why)) by {
            reveal(only_converts);
        }
    }
}

proof fn lemma_record(s: Session, config: Seq<u8>, m: MetadataView, x: SiteView, p: PlanView, why: Seq<u8>)
    ensures
        only_converts(s, write_to_config_run(s, config, m).0, x, p, why),
{
    reveal(only_converts);
}

proof fn lemma_snapshots(s: Session, payload: Seq<u8>, o: OriginalView, x: SiteView, p: PlanView, why: Seq<u8>)
    ensures
        only_converts(s, snapshots_run(s, payload, o).0, x, p, why),
{
    broadcast use lemma_on;

    let i1 = quiet(payload, lits(status_words()));
    let i2 = quiet(payload, lits(stage_words()));
    let i3 = quiet(payload, lits(flag_words()));
    assert(i1.args[0] == lit("status"));
    assert(i2.args[0] == lit("ls-files"));
    assert(i3.args[0] == lit("ls-files"));
    lemma_word(s, i1, x, p, why);
    let s1 = step(s, i1).0;
    lemma_word(s1, i2, x, p, why);
    let s2 = step(s1, i2).0;
    lemma_word(s2, i3, x, p, why);
}

proof fn lemma_unlock(
    s: Session,
    f: FileSession,
    bare: Seq<u8>,
    path: Seq<u8>,
    x: SiteView,
    p: PlanView,
    why: Seq<u8>,
)
    ensures
        only_converts(s, unlock_run(s, f, bare, path).0, x, p, why),
{
    reveal(only_converts);
}

// ------------------------------------------------------------------------ the phases

proof fn lemma_migrating(
    s: Session,
    f: FileSession,
    list: Seq<NamedView>,
    bare: Seq<u8>,
    admin: Seq<u8>,
    i: int,
    x: SiteView,
    p: PlanView,
    why: Seq<u8>,
)
    ensures
        only_converts(s, migrate_from(s, f, list, bare, admin, i).0, x, p, why),
    decreases list.len() - i,
{
    broadcast use {lemma_on, lemma_still};

    if 0 <= i < list.len() {
        let (s1, f1, r1) = migrate_one_run(s, f, list[i], bare, admin);
        lemma_unset_layout(s, child(admin, list[i].path), x, p, why);
        assert(only_converts(s, s1, x, p, why));
        lemma_migrating(s1, f1, list, bare, admin, i + 1, x, p, why);
    } else if i < 0 {
        let (s1, f1, r1) = migrate_one_run(s, f, list[i], bare, admin);
        lemma_unset_layout(s, child(admin, list[i].path), x, p, why);
        assert(only_converts(s, s1, x, p, why));
        lemma_migrating(s1, f1, list, bare, admin, i + 1, x, p, why);
    }
}

proof fn lemma_private(
    s: Session,
    f: FileSession,
    x: SiteView,
    p: PlanView,
    d: Draws,
    why: Seq<u8>,
)
    ensures
        only_converts(s, install_private_run(s, f, x, p, d).0, x, p, why),
{
    broadcast use {lemma_on, lemma_still};

    reveal(install_private_run);
    let bare = bare_of(x.root);
    let config = child(bare, lit("config"));
    let (s1, separate) = config_bool_run(s, config, "extensions.worktreeConfig");
    assert(only_converts(s, s1, x, p, why)) by {
        reveal(only_converts);
    }
    if separate is Ok {
        lemma_migrating(s1, f, p.original.private_state, bare, x.admin, 0, x, p, why);
        let (s2, f2, moved) = migrate_from(s1, f, p.original.private_state, bare, x.admin, 0);
        lemma_unset_layout(s2, config, x, p, why);
        let (s3, marked) = mark_main_run(s2, bare, separate->Ok_0);
        assert(only_converts(s2, s3, x, p, why)) by {
            let (u, unset) = unset_layout_run(s2, config);
            assert(only_converts(u, u, x, p, why));
            if separate->Ok_0 && unset is Ok {
                assert(only_converts(u, s3, x, p, why)) by {
                    reveal(only_converts);
                }
            }
        }
        lemma_snapshots(s3, payload_of(x), p.original, x, p, why);
    }
}

proof fn lemma_register(s: Session, f: FileSession, x: SiteView, p: PlanView, why: Seq<u8>)
    ensures
        only_converts(s, register_run(s, f, x, p.decisions.payload_head, why).0, x, p, why),
{
    broadcast use lemma_still;

    reveal(register_run);
    lemma_one(
        s,
        register_call(bare_of(x.root), p.decisions.payload_head, payload_of(x), why),
        x,
        p,
        why,
    );
}

proof fn lemma_default_call(s: Session, x: SiteView, p: PlanView, why: Seq<u8>, remote: Option<Seq<u8>>)
    requires
        x.default is Some,
    ensures
        only_converts(
            s,
            step(
                s,
                default_call(
                    bare_of(x.root),
                    why,
                    child(x.root, x.default->Some_0),
                    p.decisions.default_branch,
                    remote,
                ),
            ).0,
            x,
            p,
            why,
        ),
{
    lemma_one(
        s,
        default_call(
            bare_of(x.root),
            why,
            child(x.root, x.default->Some_0),
            p.decisions.default_branch,
            remote,
        ),
        x,
        p,
        why,
    );
}

proof fn lemma_default(s: Session, f: FileSession, x: SiteView, p: PlanView, why: Seq<u8>)
    ensures
        only_converts(s, install_default_run(s, f, x, p.decisions, why).0, x, p, why),
{
    broadcast use {lemma_on, lemma_still};

    reveal(install_default_run);
    let (s1, f1, r1) = second_run(s, f, x, p.decisions, why);
    assert(only_converts(s, s1, x, p, why)) by {
        if x.default is Some {
            let d = p.decisions;
            let path = child(x.root, x.default->Some_0);
            let i = invoke_in(
                bare_of(x.root),
                args4(
                    lit("show-ref"),
                    lit("--verify"),
                    lit("--quiet"),
                    lit("refs/heads/") + d.default_branch,
                ),
            );
            lemma_word(s, i, x, p, why);
            let a = step(s, i).0;
            lemma_default_call(a, x, p, why, None);
            lemma_default_call(a, x, p, why, d.selected_remote);
            assert(only_converts(s, make_default_run(s, bare_of(x.root), why, path, d).0, x, p, why));
        }
    }
    assert(only_converts(s1, install_default_run(s, f, x, p.decisions, why).0, x, p, why)) by {
        reveal(only_converts);
    }
}

proof fn lemma_complete(s: Session, f: FileSession, x: SiteView, p: PlanView, why: Seq<u8>)
    ensures
        only_converts(s, complete_run(s, f, x, p).0, x, p, why),
{
    broadcast use {lemma_on, lemma_still};

    reveal(complete_run);
    lemma_record(s, config_of(x.root), record_of(p.decisions), x, p, why);
    let s1 = write_to_config_run(s, config_of(x.root), record_of(p.decisions)).0;
    lemma_snapshots(s1, payload_of(x), p.original, x, p, why);
    let s2 = snapshots_run(s1, payload_of(x), p.original).0;
    lemma_unlock(s2, f, bare_of(x.root), payload_of(x), x, p, why);
    let (s3, f3, r3) = unlock_run(s2, f, bare_of(x.root), payload_of(x));
    if x.default is Some {
        lemma_unlock(s3, f3, bare_of(x.root), child(x.root, x.default->Some_0), x, p, why);
    }
}

pub proof fn lemma_phase(
    s: Session,
    f: FileSession,
    x: SiteView,
    p: PlanView,
    why: Seq<u8>,
    k: int,
    d: PhaseDraws,
)
    ensures
        only_converts(s, phase_run(s, f, x, p, why, k, d).0, x, p, why),
{
    broadcast use lemma_still;

    reveal(phase_run);
    lemma_bare(s, f, x, p, why, d.pointer);
    lemma_register(s, f, x, p, why);
    lemma_private(s, f, x, p, d.file, why);
    lemma_default(s, f, x, p, why);
    lemma_complete(s, f, x, p, why);
}

proof fn lemma_bare(s: Session, f: FileSession, x: SiteView, p: PlanView, why: Seq<u8>, drawn: Nonces)
    ensures
        only_converts(
            s,
            install_bare_run(s, f, x.root, p.original.repository_identity, drawn).0,
            x,
            p,
            why,
        ),
{
    broadcast use lemma_still;

    reveal(install_bare_run);
    lemma_mark_bare(s, bare_of(x.root), x, p, why);
}

/// An adoption fetches nothing, and checks nothing out over the checkout: all that it asks of Git
/// is to read and to write configuration, what the repository and the checkout are like, to
/// register the checkout's worktree without touching a file, to make the other worktree, and to
/// unlock the two.
pub proof fn adoptions_fetch_nothing(
    s: Session,
    f: FileSession,
    j: JournalView,
    x: SiteView,
    k: int,
    ds: Seq<PhaseDraws>,
)
    ensures
        only_converts(s, execute_from(s, f, j, x, k, ds).0, x, j.plan, reason_of(j.nonce)),
    decreases PHASES - k,
{
    broadcast use {lemma_on, lemma_still};

    let why = reason_of(j.nonce);
    if k < PHASES {
        if j.done[k] {
            adoptions_fetch_nothing(s, f, j, x, k + 1, other_drawn(ds));
        } else {
            lemma_phase(s, f, x, j.plan, why, k, next_drawn(ds));
            let (s1, f1, r1) = phase_run(s, f, x, j.plan, why, k, next_drawn(ds));
            if r1 is Ok {
                let (f2, r2, j1) = finish_run(f1, x.transaction, j, k);
                if r2 is Ok {
                    adoptions_fetch_nothing(s1, f2, j1, x, k + 1, other_drawn(ds));
                }
            }
        }
    }
}

} // verus!
