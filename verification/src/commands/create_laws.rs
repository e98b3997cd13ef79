//! What is ever asked of a hosting provider, whatever it answers.
use vstd::prelude::*;
use crate::bytes::lit;
use crate::commands::publish::{publishable_run, remote_name_run, RequestView};
use crate::commands::publish_create::{
    accept_run, auth_run, begin_run, create_and_query_run, create_args, creating_for, finish_run,
    protocol_run, query_run, reconciled, sequencing_run, view_args, CreateView, ReportedView,
    ResumeView,
};
use crate::commands::publish_push::{gh_repair, live_url_run};
use crate::commands::publish_run::{
    confirm_head_run, heal_run, healed_run, publication, publish_and_verify_run, repair_run,
};
use crate::error::ErrorView;
use crate::git::config::Outcome;
use crate::git::provider::{
    provider_step, version_run, Provider, ProviderCall, ProviderSession,
};
use crate::git::runner::{args1, args2, Session};
use crate::grove::metadata::{read_run, write_creating_run, MetadataView};

verus! {

/// What a provider is ever asked: its version, whether the user is known to it, a setting, and to
/// create, to show, or to choose the default branch of a repository.
pub open spec fn asks_provider(args: Seq<Seq<u8>>) -> bool {
    ||| args == args1(lit("--version"))
    ||| args == args2(lit("auth"), lit("status"))
    ||| args.len() > 1 && args[0] == lit("config") && args[1] == lit("get")
    ||| args.len() > 1 && args[0] == lit("repo") && args[1] == lit("view")
    ||| args.len() > 1 && args[0] == lit("repo") && args[1] == lit("create")
    ||| args.len() > 3 && args[0] == lit("repo") && args[1] == lit("edit") && args[3] == lit(
        "--default-branch",
    )
}

/// Whether all that lies between two states of a provider's session is what is ever asked.
#[verifier::opaque]
pub open spec fn only_asked_provider(a: ProviderSession, b: ProviderSession) -> bool {
    &&& a.calls.len() <= b.calls.len()
    &&& forall|i: int| 0 <= i < a.calls.len() ==> #[trigger] b.calls[i] == a.calls[i]
    &&& forall|i: int|
        a.calls.len() <= i < b.calls.len() ==> asks_provider((#[trigger] b.calls[i]).1)
}

pub open spec fn only_asked_any(a: Option<ProviderSession>, b: Option<ProviderSession>) -> bool {
    match (a, b) {
        (None, None) => true,
        (Some(p), Some(q)) => only_asked_provider(p, q),
        _ => false,
    }
}

broadcast proof fn lemma_on(a: ProviderSession, b: ProviderSession, c: ProviderSession)
    requires
        #[trigger] only_asked_provider(a, b),
        #[trigger] only_asked_provider(b, c),
    ensures
        only_asked_provider(a, c),
{
    reveal(only_asked_provider);
    assert forall|i: int| 0 <= i < a.calls.len() implies #[trigger] c.calls[i] == a.calls[i] by {
        assert(c.calls[i] == b.calls[i]);
        assert(b.calls[i] == a.calls[i]);
    }
    assert forall|i: int| a.calls.len() <= i < c.calls.len() implies asks_provider(
        (#[trigger] c.calls[i]).1,
    ) by {
        if i < b.calls.len() {
            assert(c.calls[i] == b.calls[i]);
        }
    }
}

broadcast proof fn lemma_same(a: ProviderSession)
    ensures
        #[trigger] only_asked_provider(a, a),
{
    reveal(only_asked_provider);
}

proof fn lemma_one(p: ProviderSession, provider: Provider, args: Seq<Seq<u8>>)
    requires
        asks_provider(args),
    ensures
        only_asked_provider(p, provider_step(p, provider, args).0),
{
    reveal(only_asked_provider);
}

// ------------------------------------------------------------------------- creating

proof fn lemma_query(p: ProviderSession, r: CreateView)
    ensures
        only_asked_provider(p, query_run(p, r).0),
{
    lemma_one(p, r.provider, view_args(r));
}

proof fn lemma_create(
    s: Session,
    p: ProviderSession,
    root: Seq<u8>,
    r: CreateView,
    branch: Seq<u8>,
)
    ensures
        only_asked_provider(p, create_and_query_run(s, p, root, r, branch).1),
{
    broadcast use lemma_on;

    lemma_one(p, r.provider, create_args(r, branch));
    let p1 = provider_step(p, r.provider, create_args(r, branch)).0;
    lemma_query(p1, r);
}

proof fn lemma_sequencing(
    s: Session,
    p: ProviderSession,
    root: Seq<u8>,
    r: CreateView,
    branch: Seq<u8>,
    continuing: bool,
)
    ensures
        only_asked_provider(p, sequencing_run(s, p, root, r, branch, continuing).1),
{
    broadcast use lemma_on;

    lemma_query(p, r);
    lemma_create(s, p, root, r, branch);
    lemma_create(s, query_run(p, r).0, root, r, branch);
}

// ----------------------------------------------------------------------- publishing

proof fn lemma_confirm(
    s: Session,
    p: Option<ProviderSession>,
    m: MetadataView,
    request: RequestView,
    branch: Seq<u8>,
)
    ensures
        only_asked_any(p, confirm_head_run(s, p, m, request, branch).1),
{
    broadcast use lemma_same;

    assert(only_asked_any(p, gh_repair(p, m, request, branch).0)) by {
        reveal(only_asked_provider);
    }
    assert(only_asked_any(p, p));
}

proof fn lemma_published(
    s: Session,
    p: Option<ProviderSession>,
    root: Seq<u8>,
    m: MetadataView,
    request: RequestView,
    branch: Seq<u8>,
    diagnostics: Seq<Seq<char>>,
    guide: Option<Seq<u8>>,
)
    ensures
        only_asked_any(
            p,
            publish_and_verify_run(s, p, root, m, request, branch, diagnostics, guide).1,
        ),
{
    broadcast use lemma_same;

    assert(only_asked_any(p, p));
    assert forall|s1: Session| only_asked_any(
        p,
        (#[trigger] confirm_head_run(s1, p, m, request, branch)).1,
    ) by {
        lemma_confirm(s1, p, m, request, branch);
    }
}

proof fn lemma_repaired(
    s: Session,
    p: Option<ProviderSession>,
    root: Seq<u8>,
    m: MetadataView,
    request: RequestView,
    branch: Seq<u8>,
)
    ensures
        only_asked_any(p, repair_run(s, p, root, m, request, branch).1),
{
    broadcast use lemma_same;

    assert(only_asked_any(p, p));
    assert forall|s1: Session| only_asked_any(
        p,
        (#[trigger] confirm_head_run(s1, p, m, request, branch)).1,
    ) by {
        lemma_confirm(s1, p, m, request, branch);
    }
}

proof fn lemma_healed(
    s: Session,
    p: Option<ProviderSession>,
    root: Seq<u8>,
    m: MetadataView,
    request: RequestView,
    guide: Option<Seq<u8>>,
    nonce: Outcome<Seq<char>>,
)
    ensures
        only_asked_any(p, healed_run(s, p, root, m, request, guide, nonce).1),
{
    broadcast use lemma_same;

    assert(only_asked_any(p, p));
    assert forall|s1: Session, branch: Seq<u8>| only_asked_any(
        p,
        (#[trigger] repair_run(s1, p, root, m, request, branch)).1,
    ) by {
        lemma_repaired(s1, p, root, m, request, branch);
    }
    assert forall|s1: Session, branch: Seq<u8>, notes: Seq<Seq<char>>| only_asked_any(
        p,
        (#[trigger] publish_and_verify_run(
            s1,
            p,
            root,
            m,
            request,
            branch,
            notes,
            guide,
        )).1,
    ) by {
        lemma_published(s1, p, root, m, request, branch, notes, guide);
    }
}

// ------------------------------------------------------------------------------ laws

/// A provider is never asked to delete, rename or transfer anything: up to the publication, a
/// creation asks for the provider's version, for the user, and to show or create a repository.
pub proof fn creations_only_create(
    s: Session,
    p: ProviderSession,
    root: Seq<u8>,
    m: MetadataView,
    r: CreateView,
)
    ensures
        only_asked_provider(p, begin_run(s, p, root, m, r).1),
{
    broadcast use {lemma_on, lemma_same};

    lemma_one(p, r.provider, args1(lit("--version")));
    let p1 = version_run(p, r.provider).0;
    lemma_one(p1, r.provider, args2(lit("auth"), lit("status")));
    let p2 = auth_run(p1, r.provider).0;
    assert(only_asked_provider(p, p));
    assert forall|s1: Session, branch: Seq<u8>, continuing: bool| only_asked_provider(
        p2,
        (#[trigger] sequencing_run(s1, p2, root, r, branch, continuing)).1,
    ) by {
        lemma_sequencing(s1, p2, root, r, branch, continuing);
    }
}

/// Accepting a provider's report of a repository asks it for one setting at most.
pub proof fn accepting_a_report_asks_for_a_setting(
    s: Session,
    p: ProviderSession,
    root: Seq<u8>,
    r: CreateView,
    parsed: std::result::Result<ReportedView, Seq<char>>,
)
    ensures
        only_asked_provider(p, accept_run(s, p, root, r, parsed).1),
        accept_run(s, p, root, r, parsed).1.calls.len() <= p.calls.len() + 1,
{
    broadcast use lemma_same;

    assert(only_asked_provider(p, p));
    assert(only_asked_provider(p, protocol_run(p, r.provider).0)) by {
        reveal(only_asked_provider);
    }
}

/// Publishing asks a provider at most to choose the default branch of the repository, and nothing
/// where there is no provider.
pub proof fn publications_only_choose_the_default_branch(
    s: Session,
    p: Option<ProviderSession>,
    root: Seq<u8>,
    m: MetadataView,
    request: RequestView,
    guide: Option<Seq<u8>>,
    nonce: Outcome<Seq<char>>,
)
    ensures
        only_asked_any(p, publication(s, p, root, m, request, guide, nonce).1),
{
    broadcast use lemma_same;

    assert(only_asked_any(p, p));
    let (s1, healed) = heal_run(s, root, m);
    if healed is Ok {
        lemma_healed(s1, p, root, healed->Ok_0, request, guide, nonce);
    }
}

/// The last part of a creation keeps to what is ever asked of a provider.
pub proof fn finished_creations_only_choose_the_default_branch(
    s: Session,
    p: ProviderSession,
    root: Seq<u8>,
    request: RequestView,
    guide: Option<Seq<u8>>,
    nonce: Outcome<Seq<char>>,
)
    ensures
        only_asked_any(Some(p), finish_run(s, p, root, request, guide, nonce).1),
{
    broadcast use lemma_same;

    assert(only_asked_any(Some(p), Some(p)));
    let (s1, read) = read_run(s, root);
    if read is Ok {
        publications_only_choose_the_default_branch(
            s1,
            Some(p),
            root,
            read->Ok_0,
            request,
            guide,
            nonce,
        );
    }
}

/// Whether a provider was asked to create a repository between two states of its session.
pub open spec fn asked_to_create(a: ProviderSession, b: ProviderSession) -> bool {
    exists|i: int|
        a.calls.len() <= i < b.calls.len() && creates(#[trigger] b.calls[i])
}

pub open spec fn creates(call: ProviderCall) -> bool {
    call.1.len() > 1 && call.1[0] == lit("repo") && call.1[1] == lit("create")
}

proof fn lemma_authentication_creates_nothing(provider: Provider)
    ensures
        !creates((provider, args2(lit("auth"), lit("status")))),
{
    reveal_strlit("auth");
    reveal_strlit("repo");
    broadcast use vstd::utf8::encode_utf8_decode_utf8;

    assert(vstd::utf8::decode_utf8(lit("auth")) == "auth"@);
    assert(vstd::utf8::decode_utf8(lit("repo")) == "repo"@);
    assert("auth"@[0] != "repo"@[0]);
}

/// A provider is asked to create a repository only once its version was accepted, the grove was
/// found fit to be published, the user was found to be known, and what is recorded was found not
/// to speak against it; and not before a new creation is recorded.
pub proof fn creations_follow_every_check(
    s: Session,
    p: ProviderSession,
    root: Seq<u8>,
    m: MetadataView,
    r: CreateView,
)
    requires
        asked_to_create(p, begin_run(s, p, root, m, r).1),
    ensures
        ({
            let (s1, healed) = heal_run(s, root, m);
            let (p1, accepted) = version_run(p, r.provider);
            let (s2, named) = remote_name_run(s1, r.remote);
            let (s3, fit) = publishable_run(s2, root, healed->Ok_0);
            let (p2, known) = auth_run(p1, r.provider);
            let (s4, live) = live_url_run(s3, root, r.remote);
            let resume = reconciled(healed->Ok_0, live->Ok_0, r);
            &&& healed is Ok
            &&& accepted is Ok
            &&& named is Ok
            &&& fit is Ok
            &&& known is Ok
            &&& live is Ok
            &&& resume == Ok::<ResumeView, ErrorView>(ResumeView::Continue) || resume == Ok::<
                ResumeView,
                ErrorView,
            >(ResumeView::Fresh) && write_creating_run(s4, root, creating_for(r)).1 is Ok
        }),
{
    lemma_authentication_creates_nothing(r.provider);
    let (s1, healed) = heal_run(s, root, m);
    let (p1, accepted) = version_run(p, r.provider);
    let (p2, known) = auth_run(p1, r.provider);
    let end = begin_run(s, p, root, m, r).1;
    let i = choose|i: int| p.calls.len() <= i < end.calls.len() && creates(#[trigger] end.calls[i]);
    let n = p.calls.len() as int;
    assert(p1.calls == p.calls.push((r.provider, args1(lit("--version")))));
    assert(p2.calls == p1.calls.push((r.provider, args2(lit("auth"), lit("status")))));
    assert(!creates(p1.calls[n]));
    assert(!creates(p2.calls[n]) && !creates(p2.calls[n + 1]));
    assert(end != p && end != p1 && end != p2);
}

} // verus!
