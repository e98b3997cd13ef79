//! What a publication comes to, by what was asked for and what the target says.
use vstd::prelude::*;
use crate::bytes::{has_run, lit, COLON};
use crate::commands::clone_laws::lemma_all_upstreams;
use crate::commands::create_results::{receipts_are_written_as_given, writes_key};
use crate::commands::publish::{
    advert_verdict, ancestry_verdict, publishable_run, rerun, RequestView, Resume,
};
use crate::commands::publish_push::{
    configure_remote_run, gh_repair, point_head_run, push_verdict, receipt_for, refspec_run, refspecs_run,
    set_and_verify_run, stale_guide, verify_tracking_run,
};
use crate::commands::publish_run::{confirm_head_run, publish_and_verify_run, settle_run};
use crate::error::{ErrorView, ExitClass};
use crate::git::config::{config_values_run, local_heads_run, one_upstream};
use crate::git::course::{
    later, lemma_later_on, lemma_later_same, lemma_later_step, lemma_ran_between, lemma_ran_step,
    ran,
};
use crate::git::provider::{Provider, ProviderSession};
use crate::git::remote::{advertises, AdvertView, Ancestry};
use crate::git::runner::{
    args1, args3, args4, args5, args6, invoke, invoke_in, step, InvocationView, OutputView, Session,
};
use crate::grove::metadata::{creating_in, receipt_in, write_receipt_run, MetadataView, PublishState};
use crate::path::child;

verus! {

// ------------------------------------------------------------------ what may be published

/// What a run may be follows from the record and from where the remote points: new where nothing is
/// recorded and no remote is in the way, a continuation or a repair where what is recorded is what
/// was asked for and the remote points there. Everything else is for a person to decide about.
pub proof fn runs_follow_from_the_record(
    m: MetadataView,
    live: Option<Seq<u8>>,
    request: RequestView,
)
    requires
        receipt_in(m) is Ok,
        m.publish_state != PublishState::Creating,
    ensures
        ({
            let r = rerun(m, live, request);
            let recorded = receipt_in(m)->Ok_0;
            let asked = recorded is Some && recorded->Some_0.remote == request.remote
                && recorded->Some_0.url == request.url;
            let there = live == Some(request.url);
            &&& recorded is None && live is None ==> r == Ok::<Resume, ErrorView>(Resume::Fresh)
            &&& recorded is None && live is Some ==> r is Err
            &&& recorded is Some && !asked ==> r is Err
            &&& m.publish_state == PublishState::Publishing && asked && (live is None || there)
                ==> r == Ok::<Resume, ErrorView>(Resume::ResumePublishing)
            &&& m.publish_state == PublishState::Published && asked && there ==> r == Ok::<
                Resume,
                ErrorView,
            >(Resume::RepairPublished)
            &&& m.publish_state == PublishState::Published && asked && !there ==> r is Err
            &&& live is Some && !there ==> r is Err
            &&& r is Err ==> r->Err_0.class == ExitClass::NeedsDecision
        }),
{
}

/// A record tells a publication exactly where it is whole: an unpublished grove has none, one that is
/// being published has its remote and URL, and one that is published has both, or neither where it
/// was cloned. Anything else is torn.
pub proof fn receipts_are_whole(m: MetadataView)
    ensures
        ({
            let r = receipt_in(m);
            let both = m.publish_remote is Some && m.publish_url is Some;
            let none = m.publish_remote is None && m.publish_url is None;
            &&& r matches Ok(Some(v)) ==> both && m.publish_remote == Some(v.remote)
                && m.publish_url == Some(v.url)
            &&& m.publish_state == PublishState::Unpublished ==> (r is Ok <==> none) && (r is Ok
                ==> r->Ok_0 is None)
            &&& m.publish_state == PublishState::Creating ==> (r is Ok <==> m.publish_url is None)
                && (r is Ok ==> r->Ok_0 is None)
            &&& m.publish_state == PublishState::Publishing ==> (r is Ok <==> both) && (r is Ok
                ==> r->Ok_0 is Some)
            &&& m.publish_state == PublishState::Published ==> (r is Ok <==> both || none) && (r
                is Ok ==> (r->Ok_0 is Some <==> both))
            &&& r is Err ==> r->Err_0.class == ExitClass::Failure
        }),
{
}

/// What is published is the recorded default branch, which must exist; only where none is recorded
/// is it the one that the repository's `HEAD` names. Without a commit there is nothing to publish.
pub proof fn the_default_branch_is_published(s: Session, root: Seq<u8>, m: MetadataView)
    ensures
        ({
            let bare = child(root, lit(".bare"));
            let any = invoke_in(
                bare,
                args4(
                    lit("for-each-ref"),
                    lit("--count=1"),
                    lit("--format=%(refname)"),
                    lit("refs/heads"),
                ),
            );
            let answer = (s.script)(s.calls.push(any));
            let (s1, r) = publishable_run(s, root, m);
            &&& r is Ok ==> answer is Ok && answer->Ok_0.status == 0
                && answer->Ok_0.stdout.len() > 0
            &&& answer is Ok && answer->Ok_0.status == 0 && answer->Ok_0.stdout.len() == 0 ==> r
                is Err && r->Err_0.class == ExitClass::NeedsDecision
            &&& r is Ok && m.default_branch is Some ==> r->Ok_0 == m.default_branch->Some_0
                && s1.calls == s.calls.push(any).push(
                invoke_in(
                    bare,
                    args4(
                        lit("show-ref"),
                        lit("--verify"),
                        lit("--quiet"),
                        lit("refs/heads/") + r->Ok_0,
                    ),
                ),
            )
            &&& r is Ok && m.default_branch is None ==> ({
                let head = invoke_in(bare, args3(lit("symbolic-ref"), lit("--quiet"), lit("HEAD")));
                let named = (s.script)(s.calls.push(any).push(head));
                named is Ok && named->Ok_0.status == 0 && crate::bytes::trim_line_ends(
                    named->Ok_0.stdout,
                ) == lit("refs/heads/") + r->Ok_0
            })
        }),
{
    let bare = child(root, lit(".bare"));
    let any = invoke_in(
        bare,
        args4(
            lit("for-each-ref"),
            lit("--count=1"),
            lit("--format=%(refname)"),
            lit("refs/heads"),
        ),
    );
    let head = invoke_in(bare, args3(lit("symbolic-ref"), lit("--quiet"), lit("HEAD")));
    let named = (s.script)(s.calls.push(any).push(head));
    let r = publishable_run(s, root, m).1;
    if r is Ok && m.default_branch is None {
        let target = crate::bytes::trim_line_ends(named->Ok_0.stdout);
        assert(target =~= lit("refs/heads/") + r->Ok_0);
    }
}

/// A target is taken as it is found only where it is empty, or where its `HEAD` names the grove's
/// default branch and it has that branch; then it is compared. Any other is for a person to decide
/// about.
pub proof fn targets_must_be_empty_or_agree(advert: AdvertView, branch: Seq<u8>)
    ensures
        ({
            let r = advert_verdict(advert, branch);
            let name = lit("refs/heads/") + branch;
            let agrees = advert.head_symref == Some(name) && advertises(advert.heads, name);
            &&& r == Ok::<bool, ErrorView>(true) <==> advert.empty
            &&& r == Ok::<bool, ErrorView>(false) <==> !advert.empty && agrees
            &&& r is Err ==> r->Err_0.class == ExitClass::NeedsDecision
        }),
{
    lemma_object(advert.heads, lit("refs/heads/") + branch, 0);
}

proof fn lemma_object(heads: Seq<(Seq<u8>, Seq<u8>)>, name: Seq<u8>, i: int)
    requires
        0 <= i,
    ensures
        crate::git::remote::object_from(heads, name, i) is Some <==> exists|k: int|
            i <= k < heads.len() && (#[trigger] heads[k]).0 == name,
    decreases heads.len() - i,
{
    if i < heads.len() && heads[i].0 != name {
        lemma_object(heads, name, i + 1);
    }
}

/// Only a target whose branch is an ancestor of the grove's is pushed to; one that has gone its own
/// way is for a person to decide about.
pub proof fn diverged_targets_are_refused(verdict: Ancestry, branch: Seq<u8>)
    ensures
        ancestry_verdict(verdict, branch) is Ok <==> verdict == Ancestry::Ancestor,
        ancestry_verdict(verdict, branch) matches Err(e) ==> e.class == ExitClass::NeedsDecision,
{
}

/// A push that a target refuses because it cannot do it as a whole is for a person to decide about;
/// any other failure is a failure.
pub proof fn refused_pushes_are_told_apart(out: OutputView)
    ensures
        push_verdict(out) is Ok <==> out.status == 0,
        push_verdict(out) matches Err(e) ==> e.class == if has_run(
            out.stderr,
            lit("the receiving end does not support --atomic push"),
        ) {
            ExitClass::NeedsDecision
        } else {
            ExitClass::Failure
        },
{
}

// ------------------------------------------------------------------------- what is pushed

/// The refspec that pushes a ref to the same name, and never by force.
pub open spec fn to_its_own_name(reference: Seq<u8>) -> Seq<u8> {
    reference.push(COLON) + reference
}

/// How the branches are pushed: to the remote, at once, and without force.
pub open spec fn pushes(root: Seq<u8>, remote: Seq<u8>, refspecs: Seq<Seq<u8>>) -> InvocationView {
    InvocationView {
        c_locale: true,
        ..invoke_in(
            child(root, lit(".bare")),
            args4(lit("push"), lit("--atomic"), lit("--"), remote) + refspecs,
        )
    }
}

/// What is pushed is the default branch alone, or, where all branches are asked for, every local
/// branch that Git lists; each to its own name.
pub proof fn the_branches_asked_for_are_pushed(
    s: Session,
    root: Seq<u8>,
    request: RequestView,
    branch: Seq<u8>,
)
    requires
        refspecs_run(s, root, request, branch).1 is Ok,
    ensures
        ({
            let (s1, r) = refspecs_run(s, root, request, branch);
            let heads = local_heads_run(s, child(root, lit(".bare")));
            &&& !request.all_branches ==> s1 == s && r->Ok_0 == seq![
                to_its_own_name(lit("refs/heads/") + branch),
            ]
            &&& request.all_branches ==> heads.1 is Ok && s1 == heads.0 && r->Ok_0.len()
                == heads.1->Ok_0.len() && forall|i: int|
                0 <= i < r->Ok_0.len() ==> #[trigger] r->Ok_0[i] == to_its_own_name(
                    heads.1->Ok_0[i],
                )
        }),
{
    if !request.all_branches {
        let one = args1(lit("refs/heads/") + branch);
        assert(crate::commands::publish_push::plain_refspecs(one) =~= seq![
            to_its_own_name(lit("refs/heads/") + branch),
        ]);
    }
}

// --------------------------------------------------------------------------- going on

proof fn lemma_fetched(s: Session, root: Seq<u8>, remotes: Seq<Seq<u8>>, i: int)
    ensures
        later(s, crate::git::fetch::fetch_from(s, root, remotes, i).0),
    decreases remotes.len() - i,
{
    broadcast use {lemma_later_same, lemma_later_step, lemma_later_on};

    if i < remotes.len() {
        let s1 = step(
            s,
            crate::git::fetch::fetch_one(child(root, lit(".bare")), remotes[i]),
        ).0;
        lemma_fetched(s1, root, remotes, i + 1);
    }
}

proof fn lemma_verified(s: Session, root: Seq<u8>, remote: Seq<u8>, branch: Seq<u8>)
    ensures
        later(s, verify_tracking_run(s, root, remote, branch).0),
{
    broadcast use {lemma_later_same, lemma_later_step, lemma_later_on};

    assert forall|t: Session| later(
        t,
        (#[trigger] crate::git::fetch::fetch_from(t, root, args1(remote), 0)).0,
    ) by {
        lemma_fetched(t, root, args1(remote), 0);
    }
}

proof fn lemma_pointed(s: Session, root: Seq<u8>, remote: Seq<u8>, branch: Seq<u8>)
    ensures
        later(s, point_head_run(s, root, remote, branch).0),
{
    broadcast use {lemma_later_same, lemma_later_step, lemma_later_on};

}

proof fn lemma_settled(
    s: Session,
    p: Option<ProviderSession>,
    root: Seq<u8>,
    m: MetadataView,
    request: RequestView,
    branch: Seq<u8>,
    lines: Seq<Seq<char>>,
    notes: Seq<Seq<char>>,
    guide: Option<Seq<u8>>,
)
    ensures
        later(s, settle_run(s, p, root, m, request, branch, lines, notes, guide).0),
{
    broadcast use {lemma_later_same, lemma_later_step, lemma_later_on};

    let (s1, p1, confirmed) = confirm_head_run(s, p, m, request, branch);
    assert(later(s, s1));
    lemma_pointed(s1, root, request.remote, branch);
    let s2 = point_head_run(s1, root, request.remote, branch).0;
    assert(later(
        s2,
        write_receipt_run(s2, root, PublishState::Published, receipt_for(request)).0,
    ));
}

/// A publication that pushes pushes what was asked for to the remote that was asked for.
pub proof fn publications_push_what_was_asked_for(
    s: Session,
    p: Option<ProviderSession>,
    root: Seq<u8>,
    m: MetadataView,
    request: RequestView,
    branch: Seq<u8>,
    notes: Seq<Seq<char>>,
    guide: Option<Seq<u8>>,
)
    requires
        publish_and_verify_run(s, p, root, m, request, branch, notes, guide).2 is Ok,
    ensures
        ran(
            s,
            publish_and_verify_run(s, p, root, m, request, branch, notes, guide).0,
            pushes(
                root,
                request.remote,
                refspecs_run(s, root, request, branch).1->Ok_0,
            ),
        ),
        later(s, publish_and_verify_run(s, p, root, m, request, branch, notes, guide).0),
{
    broadcast use {lemma_later_same, lemma_later_step, lemma_later_on};

    let end = publish_and_verify_run(s, p, root, m, request, branch, notes, guide).0;
    let (s1, refspecs) = refspecs_run(s, root, request, branch);
    let call = pushes(root, request.remote, refspecs->Ok_0);
    let s2 = step(s1, call).0;
    let bare = child(root, lit(".bare"));
    let wild = args1(crate::commands::publish_push::wildcard_of(request.remote));
    lemma_all_upstreams(s2, bare, request.remote, wild);
    let s3 = crate::git::config::upstreams_run(s2, bare, request.remote, wild).0;
    lemma_verified(s3, root, request.remote, branch);
    let s4 = verify_tracking_run(s3, root, request.remote, branch).0;
    let lines = crate::commands::publish_run::push_lines(request, branch, refspecs->Ok_0.len());
    lemma_settled(s4, p, root, m, request, branch, lines, notes, guide);
    lemma_ran_step(s1, call);
    assert(later(s, s1));
    assert(later(s2, end));
    lemma_ran_between(s, s1, s2, end, call);
}

/// A publication that changes something records first what it is: that it is under way, the remote,
/// and the URL that were asked for.
pub proof fn publications_are_recorded_as_asked(
    s: Session,
    root: Seq<u8>,
    request: RequestView,
)
    requires
        write_receipt_run(s, root, PublishState::Publishing, receipt_for(request)).1 is Ok,
    ensures
        write_receipt_run(s, root, PublishState::Publishing, receipt_for(request)).0.calls
            == s.calls.push(writes_key(root, lit("grove.publishState"), lit("publishing"))).push(
            writes_key(root, lit("grove.publishRemote"), request.remote),
        ).push(writes_key(root, lit("grove.publishUrl"), request.url)),
{
}

/// A remote that is not there is added under the name and with the URL that were asked for, and its
/// URL is then found to be just that one. It fetches every branch into its own namespace.
pub proof fn remotes_are_configured_as_asked(
    s: Session,
    root: Seq<u8>,
    request: RequestView,
    present: bool,
)
    requires
        configure_remote_run(s, root, request, present).1 is Ok,
    ensures
        ({
            let end = configure_remote_run(s, root, request, present).0;
            let config = child(child(root, lit(".bare")), lit("config"));
            &&& later(s, end)
            &&& !present ==> ran(
                s,
                end,
                invoke_in(
                    child(root, lit(".bare")),
                    args5(lit("remote"), lit("add"), lit("--"), request.remote, request.url),
                ),
            )
            &&& exists|t: Session|
                later(s, t) && later(t, end) && (#[trigger] config_values_run(
                    t,
                    config,
                    lit("remote.") + request.remote + lit(".url"),
                )).1 == Ok::<Seq<Seq<u8>>, ErrorView>(args1(request.url))
            &&& exists|t: Session|
                later(s, t) && later(t, end) && (#[trigger] config_values_run(
                    t,
                    config,
                    lit("remote.") + request.remote + lit(".fetch"),
                )).1 == Ok::<Seq<Seq<u8>>, ErrorView>(
                    args1(lit("+refs/heads/*:refs/remotes/") + request.remote + lit("/*")),
                )
            &&& exists|t: Session|
                later(s, t) && later(t, end) && (#[trigger] config_values_run(
                    t,
                    config,
                    lit("grove.remote"),
                )).1 == Ok::<Seq<Seq<u8>>, ErrorView>(args1(request.remote))
        }),
{
    broadcast use {lemma_later_same, lemma_later_step, lemma_later_on};

    let bare = child(root, lit(".bare"));
    let config = child(bare, lit("config"));
    let add = invoke_in(
        bare,
        args5(lit("remote"), lit("add"), lit("--"), request.remote, request.url),
    );
    let end = configure_remote_run(s, root, request, present).0;
    let (s1, added) = crate::commands::publish_push::add_remote_run(s, root, request, present);
    let (s2, checked) = crate::commands::publish_push::url_check_run(s1, root, request);
    let (s3, specs) = refspec_run(s2, root, request.remote);
    let (s4, guess) = set_and_verify_run(s3, config, lit("worktree.guessRemote"), lit("true"));
    let (s5, named) = set_and_verify_run(s4, config, lit("grove.remote"), request.remote);
    assert(later(s, s1));
    assert(later(s1, s2));
    assert(later(s2, s3));
    assert(later(s3, s4));
    assert(later(s4, s5));
    assert(end == s5);
    assert(later(s, end) && later(s1, end) && later(s2, end) && later(s3, end));
    if !present {
        lemma_ran_step(s, add);
        lemma_ran_between(s, s, s1, end, add);
    }
    assert(config_values_run(s1, config, lit("remote.") + request.remote + lit(".url")).1 == Ok::<
        Seq<Seq<u8>>,
        ErrorView,
    >(args1(request.url)));
    lemma_refspec(s2, root, request.remote);
    let t = choose|t: Session|
        later(s2, t) && later(t, s3) && (#[trigger] config_values_run(
            t,
            config,
            lit("remote.") + request.remote + lit(".fetch"),
        )).1 == Ok::<Seq<Seq<u8>>, ErrorView>(
            args1(lit("+refs/heads/*:refs/remotes/") + request.remote + lit("/*")),
        );
    assert(later(s, t) && later(t, end));
    lemma_set_and_verified(s4, config, lit("grove.remote"), request.remote);
    let u = choose|u: Session|
        later(s4, u) && later(u, s5) && (#[trigger] config_values_run(
            u,
            config,
            lit("grove.remote"),
        )).1 == Ok::<Seq<Seq<u8>>, ErrorView>(args1(request.remote));
    assert(later(s, u) && later(u, end));
}

proof fn lemma_refspec(s: Session, root: Seq<u8>, remote: Seq<u8>)
    requires
        refspec_run(s, root, remote).1 is Ok,
    ensures
        exists|t: Session|
            later(s, t) && later(t, refspec_run(s, root, remote).0) && (
            #[trigger] config_values_run(
                t,
                child(child(root, lit(".bare")), lit("config")),
                lit("remote.") + remote + lit(".fetch"),
            )).1 == Ok::<Seq<Seq<u8>>, ErrorView>(
                args1(lit("+refs/heads/*:refs/remotes/") + remote + lit("/*")),
            ),
{
    broadcast use {lemma_later_same, lemma_later_step, lemma_later_on};

    let config = child(child(root, lit(".bare")), lit("config"));
    let key = lit("remote.") + remote + lit(".fetch");
    let want = lit("+refs/heads/*:refs/remotes/") + remote + lit("/*");
    let end = refspec_run(s, root, remote).0;
    let (s1, now) = config_values_run(s, config, key);
    if now == Ok::<Seq<Seq<u8>>, ErrorView>(args1(want)) {
        assert(later(s, s) && later(s, end));
    } else {
        let s2 = crate::git::config::unset_all_run(s1, config, key).0;
        let s3 = crate::git::config::set_config_run(s2, config, key, want, true).0;
        assert(later(s, s3));
        assert(config_values_run(s3, config, key).1 == Ok::<Seq<Seq<u8>>, ErrorView>(args1(want)));
        assert(later(s3, end));
    }
}

proof fn lemma_set_and_verified(s: Session, config: Seq<u8>, key: Seq<u8>, value: Seq<u8>)
    requires
        set_and_verify_run(s, config, key, value).1 is Ok,
    ensures
        exists|t: Session|
            later(s, t) && later(t, set_and_verify_run(s, config, key, value).0) && (
            #[trigger] config_values_run(t, config, key)).1 == Ok::<Seq<Seq<u8>>, ErrorView>(
                args1(value),
            ),
{
    broadcast use {lemma_later_same, lemma_later_step, lemma_later_on};

    let end = set_and_verify_run(s, config, key, value).0;
    let (s1, now) = config_values_run(s, config, key);
    if now == Ok::<Seq<Seq<u8>>, ErrorView>(args1(value)) {
        assert(later(s, s) && later(s, end));
    } else {
        let s2 = crate::git::config::set_config_run(s1, config, key, value, false).0;
        assert(later(s, s2));
        assert(config_values_run(s2, config, key).1 == Ok::<Seq<Seq<u8>>, ErrorView>(
            args1(value),
        ));
        assert(later(s2, end));
    }
}

// ---------------------------------------------------------------------------- the end

/// How the hosting side is asked for what it has.
pub open spec fn asks_target(url: Seq<u8>) -> InvocationView {
    invoke(
        args6(
            lit("ls-remote"),
            lit("--symref"),
            lit("--"),
            url,
            lit("HEAD"),
            lit("refs/heads/*"),
        ),
    )
}

/// A first publication ends well only with the receipt advanced to `published`, which is the last
/// thing that it does. Where the hosting side does not have the grove's default branch as its own,
/// nothing is recorded, and the rest is for a person to decide.
pub proof fn unconfirmed_publications_stay_under_way(
    s: Session,
    p: Option<ProviderSession>,
    root: Seq<u8>,
    m: MetadataView,
    request: RequestView,
    branch: Seq<u8>,
    lines: Seq<Seq<char>>,
    notes: Seq<Seq<char>>,
    guide: Option<Seq<u8>>,
)
    requires
        settle_run(s, p, root, m, request, branch, lines, notes, guide).2 is Ok,
    ensures
        ({
            let (s1, p1, r) = settle_run(s, p, root, m, request, branch, lines, notes, guide);
            let (t, q, confirmed) = confirm_head_run(s, p, m, request, branch);
            let n = s1.calls.len() as int;
            &&& confirmed is Ok
            &&& confirmed->Ok_0 ==> r->Ok_0.class == ExitClass::Success && n >= 3
                && s1.calls[n - 3] == writes_key(
                root,
                lit("grove.publishState"),
                lit("published"),
            ) && s1.calls[n - 2] == writes_key(root, lit("grove.publishRemote"), request.remote)
                && s1.calls[n - 1] == writes_key(root, lit("grove.publishUrl"), request.url)
            &&& !confirmed->Ok_0 ==> r->Ok_0.class == ExitClass::NeedsDecision && s1 == t
                && forall|k: int|
                s.calls.len() <= k < s1.calls.len() ==> #[trigger] s1.calls[k] == asks_target(
                    request.url,
                )
        }),
{
    let (t, q, confirmed) = confirm_head_run(s, p, m, request, branch);
    let ask = asks_target(request.url);
    assert(t.calls == s.calls.push(ask) || t.calls == s.calls.push(ask).push(ask));
    if confirmed is Ok && confirmed->Ok_0 {
        let s2 = point_head_run(t, root, request.remote, branch).0;
        receipts_are_written_as_given(
            s2,
            root,
            PublishState::Published,
            receipt_for(request),
        );
    }
}

/// What a person is told of a guide that publishing made false names the guide, and is told only
/// where it is false.
pub proof fn stale_guides_are_spoken_of(root: Seq<u8>, guide: Option<Seq<u8>>)
    ensures
        stale_guide(root, guide) is Some <==> guide is Some && has_run(
            guide->Some_0,
            lit(crate::commands::publish_push::UNPUBLISHED_GUIDE_SENTENCE),
        ),
{
}

// --------------------------------------------------------------------------- upstreams

/// A local branch whose counterpart the remote has is made to follow it: its remote and its branch
/// there are written, and read back. Where the remote does not have it, nothing is written.
pub proof fn branches_follow_their_counterparts(
    s: Session,
    bare: Seq<u8>,
    remote: Seq<u8>,
    branch: Seq<u8>,
    refspecs: Seq<Seq<u8>>,
    counterpart: Seq<u8>,
)
    requires
        crate::git::config::destinations(
            refspecs,
            lit("refs/heads/") + branch,
            refspecs.len() as int,
        ) == seq![counterpart],
        one_upstream(s, bare, remote, refspecs, lit("refs/heads/") + branch).1 is Ok,
    ensures
        ({
            let (s1, r) = one_upstream(s, bare, remote, refspecs, lit("refs/heads/") + branch);
            let asked = invoke_in(
                bare,
                args4(lit("show-ref"), lit("--verify"), lit("--quiet"), counterpart),
            );
            let answer = (s.script)(s.calls.push(asked));
            let config = child(bare, lit("config"));
            &&& answer is Ok
            &&& answer->Ok_0.status == 1 ==> s1.calls == s.calls.push(asked)
            &&& answer->Ok_0.status != 1 ==> answer->Ok_0.status == 0 && s1.calls.len()
                == s.calls.len() + 5 && s1.calls[s.calls.len() as int + 1] == invoke(
                args5(
                    lit("config"),
                    lit("--file"),
                    config,
                    lit("branch.") + branch + lit(".remote"),
                    remote,
                ),
            ) && s1.calls[s.calls.len() as int + 2] == invoke(
                args5(
                    lit("config"),
                    lit("--file"),
                    config,
                    lit("branch.") + branch + lit(".merge"),
                    lit("refs/heads/") + branch,
                ),
            )
        }),
{
    let local = lit("refs/heads/") + branch;
    assert(crate::bytes::after(local, lit("refs/heads/").len() as int) =~= branch);
    let candidates = crate::git::config::destinations(refspecs, local, refspecs.len() as int);
    assert(candidates.len() == 1);
    assert(candidates[0] == counterpart);
    assert forall|i: int| 0 <= i < candidates.len() implies #[trigger] candidates[i]
        == candidates[0] by {}
}

/// A repository that this grove created on GitHub, under the remote that is published to, is told
/// which branch is its default; no other repository is told anything.
pub proof fn created_repositories_are_given_their_default_branch(
    p: ProviderSession,
    m: MetadataView,
    request: RequestView,
    branch: Seq<u8>,
)
    requires
        creating_in(m) is Ok,
    ensures
        ({
            let made = creating_in(m)->Ok_0;
            let end = gh_repair(Some(p), m, request, branch).0;
            let ours = made is Some && made->Some_0.provider == lit("github")
                && made->Some_0.remote == request.remote;
            let call = (
                Provider::GitHub,
                args5(
                    lit("repo"),
                    lit("edit"),
                    made->Some_0.owner + lit("/") + made->Some_0.name,
                    lit("--default-branch"),
                    branch,
                ),
            );
            &&& end is Some
            &&& ours ==> end->Some_0.calls == p.calls.push(call)
            &&& !ours ==> end->Some_0 == p
        }),
{
}

} // verus!
