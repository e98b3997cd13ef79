//! What a repository is created as, and what is published to it, by what was asked for.
use vstd::prelude::*;
use crate::bytes::{lit, LF, SLASH};
use crate::commands::create_laws::creates;
use crate::commands::publish::RequestView;
use crate::commands::publish_create::{
    accept_run, auth_run, begin_run, create_and_query_run, create_args, creating_for, protocol_run,
    query_run, reconciled, resolved_run, sequencing_run, view_args, CreateView, ReportedView,
    ResumeView,
};
use crate::commands::publish_run::heal_run;
use crate::error::{ErrorView, ExitClass};
use crate::git::provider::{
    provider_step, version_run, Provider, ProviderCall, ProviderSession,
};
use crate::git::runner::{args1, args2, args5, invoke, InvocationView, Session};
use crate::grove::metadata::{
    creating_in, receipt_in, write_creating_run, write_receipt_run, MetadataView, PublishState,
    ReceiptView,
};
use crate::path::child;

verus! {

proof fn lemma_words()
    ensures
        lit("--public") != lit("--private"),
        !lit("--public").contains(SLASH),
        !lit("--private").contains(SLASH),
        lit("repo") != lit("--private"),
        lit("repo") != lit("--public"),
        lit("create") != lit("--private"),
        lit("create") != lit("--public"),
        lit("--skipGitInit") != lit("--private"),
        lit("--skipGitInit") != lit("--public"),
        lit("--defaultBranch") != lit("--private"),
        lit("--defaultBranch") != lit("--public"),
        lit("view") != lit("create"),
        lit("auth") != lit("repo"),
        lit("/") == seq![SLASH],
{
    reveal_strlit("--public");
    reveal_strlit("--private");
    reveal_strlit("repo");
    reveal_strlit("create");
    reveal_strlit("--skipGitInit");
    reveal_strlit("--defaultBranch");
    reveal_strlit("view");
    reveal_strlit("auth");
    reveal_strlit("/");
    vstd::utf8::is_ascii_chars_encode_utf8("--public"@);
    vstd::utf8::is_ascii_chars_encode_utf8("--private"@);
    vstd::utf8::is_ascii_chars_encode_utf8("repo"@);
    vstd::utf8::is_ascii_chars_encode_utf8("create"@);
    vstd::utf8::is_ascii_chars_encode_utf8("--skipGitInit"@);
    vstd::utf8::is_ascii_chars_encode_utf8("--defaultBranch"@);
    vstd::utf8::is_ascii_chars_encode_utf8("view"@);
    vstd::utf8::is_ascii_chars_encode_utf8("auth"@);
    vstd::utf8::is_ascii_chars_encode_utf8("/"@);
    assert(lit("--public").len() == 8);
    assert(lit("--private").len() == 9);
    assert(lit("repo").len() == 4);
    assert(lit("create").len() == 6);
    assert(lit("--skipGitInit").len() == 13);
    assert(lit("--defaultBranch").len() == 15);
    assert(lit("view").len() == 4);
    assert(lit("auth")[0] == 0x61 && lit("repo")[0] == 0x72);
    assert(lit("/") =~= seq![SLASH]);
}

/// Whether a call that creates a repository creates the one that was asked for: at its provider,
/// under its owner and name, and public only where that was asked for. GitLab is told the default
/// branch; the two options beside it keep it from making a repository here.
pub open spec fn created_as_asked(call: ProviderCall, r: CreateView, branch: Option<Seq<u8>>) -> bool {
    let args = call.1;
    &&& call.0 == r.provider
    &&& args.len() >= 4
    &&& args[2] == r.owner + lit("/") + r.name
    &&& r.public ==> args[3] == lit("--public") && forall|i: int|
        0 <= i < 6 && i < args.len() ==> #[trigger] args[i] != lit("--private")
    &&& !r.public ==> args[3] == lit("--private") && forall|i: int|
        0 <= i < 6 && i < args.len() ==> #[trigger] args[i] != lit("--public")
    &&& r.provider == Provider::GitHub ==> args.len() == 4
    &&& r.provider == Provider::GitLab ==> args.len() == 7 && args[4] == lit("--skipGitInit")
        && args[5] == lit("--defaultBranch") && (branch matches Some(b) ==> args[6] == b)
}

/// Whether every repository that was created between two states of a provider's session is the one
/// that was asked for.
#[verifier::opaque]
pub open spec fn only_asked_for(
    a: ProviderSession,
    b: ProviderSession,
    r: CreateView,
    branch: Option<Seq<u8>>,
) -> bool {
    &&& a.calls.len() <= b.calls.len()
    &&& forall|i: int| 0 <= i < a.calls.len() ==> #[trigger] b.calls[i] == a.calls[i]
    &&& forall|i: int|
        a.calls.len() <= i < b.calls.len() && creates(#[trigger] b.calls[i]) ==> created_as_asked(
            b.calls[i],
            r,
            branch,
        )
}

proof fn lemma_on(
    a: ProviderSession,
    b: ProviderSession,
    c: ProviderSession,
    r: CreateView,
    branch: Option<Seq<u8>>,
)
    requires
        only_asked_for(a, b, r, branch),
        only_asked_for(b, c, r, branch),
    ensures
        only_asked_for(a, c, r, branch),
{
    reveal(only_asked_for);
    assert forall|i: int| 0 <= i < a.calls.len() implies #[trigger] c.calls[i] == a.calls[i] by {
        assert(c.calls[i] == b.calls[i]);
        assert(b.calls[i] == a.calls[i]);
    }
    assert forall|i: int|
        a.calls.len() <= i < c.calls.len() && creates(#[trigger] c.calls[i]) implies created_as_asked(
        c.calls[i],
        r,
        branch,
    ) by {
        if i < b.calls.len() {
            assert(c.calls[i] == b.calls[i]);
        }
    }
}

proof fn lemma_same(a: ProviderSession, r: CreateView, branch: Option<Seq<u8>>)
    ensures
        only_asked_for(a, a, r, branch),
{
    reveal(only_asked_for);
}

proof fn lemma_other(
    p: ProviderSession,
    provider: Provider,
    args: Seq<Seq<u8>>,
    r: CreateView,
    branch: Option<Seq<u8>>,
)
    requires
        !creates((provider, args)),
    ensures
        only_asked_for(p, provider_step(p, provider, args).0, r, branch),
{
    reveal(only_asked_for);
}

proof fn lemma_query(p: ProviderSession, r: CreateView, branch: Option<Seq<u8>>)
    ensures
        only_asked_for(p, query_run(p, r).0, r, branch),
{
    lemma_words();
    lemma_other(p, r.provider, view_args(r), r, branch);
}

/// The arguments that a repository is created with are those that were asked for, and say once
/// whether it is public.
pub proof fn creations_say_what_was_asked_for(r: CreateView, branch: Seq<u8>)
    ensures
        creates((r.provider, create_args(r, branch))),
        created_as_asked((r.provider, create_args(r, branch)), r, Some(branch)),
        branch != lit("--public") && branch != lit("--private") ==> (create_args(
            r,
            branch,
        ).contains(lit("--public")) <==> r.public) && (create_args(r, branch).contains(
            lit("--private"),
        ) <==> !r.public),
{
    lemma_words();
    let args = create_args(r, branch);
    let target = r.owner + lit("/") + r.name;
    assert(target[r.owner.len() as int] == SLASH);
    assert(target.contains(SLASH));
    assert(args[2] == target);
    if r.public {
        assert(args[3] == lit("--public"));
        assert(args.contains(lit("--public")));
    } else {
        assert(args[3] == lit("--private"));
        assert(args.contains(lit("--private")));
    }
}

proof fn lemma_create(
    s: Session,
    p: ProviderSession,
    root: Seq<u8>,
    r: CreateView,
    branch: Seq<u8>,
    known: Option<Seq<u8>>,
)
    requires
        known is None || known == Some(branch),
    ensures
        only_asked_for(p, create_and_query_run(s, p, root, r, branch).1, r, known),
{
    creations_say_what_was_asked_for(r, branch);
    let args = create_args(r, branch);
    let p1 = provider_step(p, r.provider, args).0;
    assert(only_asked_for(p, p1, r, known)) by {
        reveal(only_asked_for);
        assert(created_as_asked((r.provider, args), r, known));
    }
    lemma_query(p1, r, known);
    lemma_on(p, p1, query_run(p1, r).0, r, known);
}

proof fn lemma_sequencing(
    s: Session,
    p: ProviderSession,
    root: Seq<u8>,
    r: CreateView,
    branch: Seq<u8>,
    continuing: bool,
    known: Option<Seq<u8>>,
)
    requires
        known is None || known == Some(branch),
    ensures
        only_asked_for(p, sequencing_run(s, p, root, r, branch, continuing).1, r, known),
{
    lemma_query(p, r, known);
    let p1 = query_run(p, r).0;
    lemma_create(s, p, root, r, branch, known);
    lemma_create(s, p1, root, r, branch, known);
    lemma_on(p, p1, create_and_query_run(s, p1, root, r, branch).1, r, known);
}

/// Whatever a creation finds, a repository is created only as the one that was asked for: at its
/// provider, under its owner and name, public exactly where that was asked for, and on GitLab with
/// the default branch that the grove records.
pub proof fn created_repositories_are_as_asked(
    s: Session,
    p: ProviderSession,
    root: Seq<u8>,
    m: MetadataView,
    r: CreateView,
)
    ensures
        only_asked_for(
            p,
            begin_run(s, p, root, m, r).1,
            r,
            heal_run(s, root, m).1->Ok_0.default_branch,
        ),
{
    lemma_words();
    let (s1, healed) = heal_run(s, root, m);
    let known = healed->Ok_0.default_branch;
    let (p1, accepted) = version_run(p, r.provider);
    let (p2, confirmed) = auth_run(p1, r.provider);
    lemma_same(p, r, known);
    lemma_other(p, r.provider, args1(lit("--version")), r, known);
    lemma_other(p1, r.provider, args2(lit("auth"), lit("status")), r, known);
    lemma_on(p, p1, p2, r, known);
    assert forall|t: Session, branch: Seq<u8>, continuing: bool|
        (known is None || known == Some(branch)) implies only_asked_for(
        p,
        (#[trigger] sequencing_run(t, p2, root, r, branch, continuing)).1,
        r,
        known,
    ) by {
        lemma_sequencing(t, p2, root, r, branch, continuing, known);
        lemma_on(p, p2, sequencing_run(t, p2, root, r, branch, continuing).1, r, known);
    }
}

// ----------------------------------------------------------------------------- recording

/// How Git is asked to give a key of the grove its value.
pub open spec fn writes_key(root: Seq<u8>, key: Seq<u8>, value: Seq<u8>) -> InvocationView {
    invoke(
        args5(
            lit("config"),
            lit("--file"),
            child(child(root, lit(".bare")), lit("config")),
            key,
            value,
        ),
    )
}

/// The word that a provider is recorded by.
pub open spec fn provider_word(provider: Provider) -> Seq<u8> {
    if provider == Provider::GitHub {
        lit("github")
    } else {
        lit("gitlab")
    }
}

/// A creation is recorded as what was asked for before the provider is asked for it: that it is
/// under way, its provider, owner and name, and the remote.
pub proof fn creations_are_recorded_first(s: Session, root: Seq<u8>, r: CreateView)
    requires
        write_creating_run(s, root, creating_for(r)).1 is Ok,
    ensures
        write_creating_run(s, root, creating_for(r)).0.calls == s.calls.push(
            writes_key(root, lit("grove.publishState"), lit("creating")),
        ).push(writes_key(root, lit("grove.publishProvider"), provider_word(r.provider))).push(
            writes_key(root, lit("grove.publishOwner"), r.owner),
        ).push(writes_key(root, lit("grove.publishName"), r.name)).push(
            writes_key(root, lit("grove.publishRemote"), r.remote),
        ),
{
}

/// A receipt is what was asked for: the state, the remote's name, and its URL.
pub proof fn receipts_are_written_as_given(
    s: Session,
    root: Seq<u8>,
    state: PublishState,
    receipt: ReceiptView,
)
    requires
        write_receipt_run(s, root, state, receipt).1 is Ok,
    ensures
        write_receipt_run(s, root, state, receipt).0.calls == s.calls.push(
            writes_key(
                root,
                lit("grove.publishState"),
                match state {
                    PublishState::Unpublished => lit("unpublished"),
                    PublishState::Creating => lit("creating"),
                    PublishState::Publishing => lit("publishing"),
                    PublishState::Published => lit("published"),
                },
            ),
        ).push(writes_key(root, lit("grove.publishRemote"), receipt.remote)).push(
            writes_key(root, lit("grove.publishUrl"), receipt.url),
        ),
{
}

/// What may go on: a creation that is recorded as under way goes on where it is the one that was
/// asked for in its provider, owner, name and remote; one whose repository has been created goes on
/// to publish to the recorded URL and remote. Anything else is for a person to decide about, or torn.
pub proof fn recorded_creations_go_on(m: MetadataView, live: Option<Seq<u8>>, r: CreateView)
    requires
        creating_in(m) is Ok,
        creating_in(m)->Ok_0 is Some,
    ensures
        ({
            let c = creating_in(m)->Ok_0->Some_0;
            let same = c.provider == provider_word(r.provider) && c.owner == r.owner && c.name
                == r.name && c.remote == r.remote;
            let v = reconciled(m, live, r);
            &&& !same ==> v is Err && v->Err_0.class == ExitClass::NeedsDecision
            &&& same && m.publish_state == PublishState::Creating ==> v == Ok::<
                ResumeView,
                ErrorView,
            >(ResumeView::Continue)
            &&& same && m.publish_state != PublishState::Creating && receipt_in(m) is Ok
                && receipt_in(m)->Ok_0 is Some ==> v == Ok::<ResumeView, ErrorView>(
                ResumeView::ResumeExisting(
                    RequestView {
                        url: receipt_in(m)->Ok_0->Some_0.url,
                        remote: receipt_in(m)->Ok_0->Some_0.remote,
                        all_branches: r.all_branches,
                    },
                ),
            )
        }),
{
}

/// Where nothing is recorded and no remote is configured, a creation is new.
pub proof fn unrecorded_creations_are_new(m: MetadataView, r: CreateView)
    requires
        m.publish_state == PublishState::Unpublished,
        m.publish_remote is None,
        m.publish_url is None,
    ensures
        reconciled(m, None, r) == Ok::<ResumeView, ErrorView>(ResumeView::Fresh),
        forall|url: Seq<u8>|
            (#[trigger] reconciled(m, Some(url), r)) is Err && reconciled(
                m,
                Some(url),
                r,
            )->Err_0.class == ExitClass::NeedsDecision,
{
}

/// What a new creation does first is to record itself; one that goes on does not record itself
/// again, and one whose repository is known asks its provider for nothing.
pub proof fn creations_begin_by_their_record(
    s: Session,
    p: ProviderSession,
    root: Seq<u8>,
    r: CreateView,
    branch: Seq<u8>,
    request: RequestView,
)
    ensures
        resolved_run(s, p, root, r, branch, ResumeView::ResumeExisting(request)).0 == s,
        resolved_run(s, p, root, r, branch, ResumeView::ResumeExisting(request)).1 == p,
        resolved_run(s, p, root, r, branch, ResumeView::ResumeExisting(request)).2 is Ok,
        resolved_run(s, p, root, r, branch, ResumeView::Fresh).1 != p ==> write_creating_run(
            s,
            root,
            creating_for(r),
        ).1 is Ok,
        resolved_run(s, p, root, r, branch, ResumeView::Continue).1.calls.len() > p.calls.len()
            && resolved_run(s, p, root, r, branch, ResumeView::Continue).1.calls[p.calls.len() as int]
            == (r.provider, view_args(r)),
{
    let (p1, found) = query_run(p, r);
    let end = sequencing_run(s, p, root, r, branch, true).1;
    assert(p1.calls[p.calls.len() as int] == (r.provider, view_args(r)));
    let p2 = provider_step(p1, r.provider, create_args(r, branch)).0;
    assert(p2.calls[p.calls.len() as int] == p1.calls[p.calls.len() as int]);
    assert(query_run(p2, r).0.calls[p.calls.len() as int] == p2.calls[p.calls.len() as int]);
}

/// How a repository is asked for: by its owner and name, at its provider.
pub proof fn repositories_are_asked_for_by_name(r: CreateView)
    ensures
        view_args(r).len() > 2,
        view_args(r)[0] == lit("repo"),
        view_args(r)[1] == lit("view"),
        view_args(r)[2] == r.owner + lit("/") + r.name,
{
}

// ----------------------------------------------------------------------------- the URL

/// How a provider is asked which protocol it is set to.
pub open spec fn asks_protocol(provider: Provider) -> Seq<Seq<u8>> {
    args5(
        lit("config"),
        lit("get"),
        lit("git_protocol"),
        lit("--host"),
        if provider == Provider::GitHub {
            lit("github.com")
        } else {
            lit("gitlab.com")
        },
    )
}

/// What is published is the repository that the provider reports, if it is the one that was asked
/// for: by its address for `ssh` where the provider says that it is set to that for its own host, and
/// by the one for `https` otherwise. The remote is the one that was asked for, and so is whether all
/// branches are published; all of it is recorded before.
pub proof fn reported_repositories_are_published(
    s: Session,
    p: ProviderSession,
    root: Seq<u8>,
    r: CreateView,
    reported: ReportedView,
)
    requires
        accept_run(s, p, root, r, Ok(reported)).2 is Ok,
    ensures
        ({
            let (s1, p1, v) = accept_run(s, p, root, r, Ok(reported));
            let asked = (p.script)(p.calls.push((r.provider, asks_protocol(r.provider))));
            let ssh = asked is Ok && asked->Ok_0.status == 0 && (asked->Ok_0.stdout == lit("ssh")
                || asked->Ok_0.stdout == lit("ssh").push(LF));
            let url = if ssh {
                reported.ssh_url
            } else {
                reported.https_url
            };
            &&& reported.full_name == r.owner + lit("/") + r.name
            &&& v->Ok_0 == RequestView { url, remote: r.remote, all_branches: r.all_branches }
            &&& s1.calls == s.calls.push(
                writes_key(root, lit("grove.publishState"), lit("publishing")),
            ).push(writes_key(root, lit("grove.publishRemote"), r.remote)).push(
                writes_key(root, lit("grove.publishUrl"), url),
            )
        }),
{
    lemma_protocol(p, r.provider);
    let ssh = says_ssh(p, r.provider);
    let url = if ssh {
        reported.ssh_url
    } else {
        reported.https_url
    };
    let receipt = ReceiptView { remote: r.remote, url };
    receipts_are_written_as_given(s, root, PublishState::Publishing, receipt);
}

/// Whether a provider, asked next, says that it is set to `ssh`.
spec fn says_ssh(p: ProviderSession, provider: Provider) -> bool {
    let asked = (p.script)(p.calls.push((provider, asks_protocol(provider))));
    asked is Ok && asked->Ok_0.status == 0 && (asked->Ok_0.stdout == lit("ssh")
        || asked->Ok_0.stdout == lit("ssh").push(LF))
}

proof fn lemma_protocol(p: ProviderSession, provider: Provider)
    ensures
        (protocol_run(p, provider).1 == lit("ssh")) == says_ssh(p, provider),
{
    reveal_strlit("ssh");
    reveal_strlit("https");
    vstd::utf8::is_ascii_chars_encode_utf8("ssh"@);
    vstd::utf8::is_ascii_chars_encode_utf8("https"@);
    assert(lit("ssh").len() == 3);
    assert(lit("https").len() == 5);
    assert(lit("ssh")[2] == 0x68);
    let call = (provider, asks_protocol(provider));
    let asked = (p.script)(p.calls.push(call));
    assert(protocol_run(p, provider).0.calls == p.calls.push(call));
    if asked is Ok {
        lemma_unended(asked->Ok_0.stdout);
    }
}

/// What a line holds without its end.
proof fn lemma_unended(stdout: Seq<u8>)
    requires
        lit("ssh").len() == 3,
        lit("ssh")[2] == 0x68,
    ensures
        crate::bytes::without_suffix(stdout, seq![LF]) matches Some(value) ==> ((value == lit(
            "ssh",
        )) == (stdout == lit("ssh").push(LF))) && stdout != lit("ssh"),
        crate::bytes::without_suffix(stdout, seq![LF]) is None ==> stdout != lit("ssh").push(LF),
{
    let end: Seq<u8> = seq![LF];
    let whole = lit("ssh").push(LF);
    assert(whole.subrange(3, 4) =~= end);
    assert(whole.subrange(0, 3) =~= lit("ssh"));
    if crate::bytes::ends_with(stdout, end) {
        let value = stdout.subrange(0, stdout.len() - 1);
        assert(stdout.subrange(stdout.len() - 1, stdout.len() as int)[0] == end[0]);
        assert(stdout =~= value.push(LF));
    }
}

/// A repository that is not the one that was asked for is not published to: the record of the
/// creation is taken back, and the rest is for a person to decide.
pub proof fn other_repositories_are_refused(
    s: Session,
    p: ProviderSession,
    root: Seq<u8>,
    r: CreateView,
    reported: ReportedView,
)
    requires
        reported.full_name != r.owner + lit("/") + r.name,
    ensures
        accept_run(s, p, root, r, Ok(reported)).1 == p,
        accept_run(s, p, root, r, Ok(reported)).2 is Err,
        crate::grove::metadata::rollback_run(s, root).1 is Ok ==> accept_run(
            s,
            p,
            root,
            r,
            Ok(reported),
        ).2->Err_0.class == ExitClass::NeedsDecision,
        accept_run(s, p, root, r, Ok(reported)).0 == crate::grove::metadata::rollback_run(
            s,
            root,
        ).0,
{
}

/// How Git is asked to clear a key of the grove.
pub open spec fn clears_key(root: Seq<u8>, key: Seq<u8>) -> InvocationView {
    invoke(
        args5(
            lit("config"),
            lit("--file"),
            child(child(root, lit(".bare")), lit("config")),
            lit("--unset-all"),
            key,
        ),
    )
}

/// A creation is taken back key by key, and the grove is unpublished again at the end.
pub proof fn creations_are_taken_back(s: Session, root: Seq<u8>)
    requires
        crate::grove::metadata::rollback_run(s, root).1 is Ok,
    ensures
        crate::grove::metadata::rollback_run(s, root).0.calls == s.calls.push(
            clears_key(root, lit("grove.publishProvider")),
        ).push(clears_key(root, lit("grove.publishOwner"))).push(
            clears_key(root, lit("grove.publishName")),
        ).push(clears_key(root, lit("grove.publishRemote"))).push(
            writes_key(root, lit("grove.publishState"), lit("unpublished")),
        ),
{
}

/// A provider's program must be signed in: it is asked, and its exit status decides. One that is not
/// leaves the creation for a person to decide about.
pub proof fn providers_must_be_signed_in(p: ProviderSession, provider: Provider)
    ensures
        ({
            let call = (provider, args2(lit("auth"), lit("status")));
            let told = (p.script)(p.calls.push(call));
            let (p1, r) = auth_run(p, provider);
            &&& p1.calls == p.calls.push(call)
            &&& r is Ok <==> told is Ok && told->Ok_0.status == 0
            &&& r is Err && told is Ok ==> r->Err_0.class == ExitClass::NeedsDecision
        }),
{
}

/// A creation that is recorded is recorded whole: its provider, its owner, its name and its remote,
/// each as it stands in the record. One that is under way and is not whole is refused.
pub proof fn recorded_creations_are_whole(m: MetadataView)
    ensures
        creating_in(m) matches Ok(Some(c)) ==> m.publish_provider == Some(c.provider)
            && m.publish_owner == Some(c.owner) && m.publish_name == Some(c.name)
            && m.publish_remote == Some(c.remote) && m.publish_state != PublishState::Unpublished,
        m.publish_state == PublishState::Unpublished ==> creating_in(m) is Ok,
        m.publish_state == PublishState::Creating ==> (creating_in(m) is Ok
            <==> m.publish_provider is Some && m.publish_owner is Some && m.publish_name is Some
            && m.publish_remote is Some && m.publish_url is None),
        m.publish_state == PublishState::Creating && creating_in(m) is Ok ==> creating_in(
            m,
        )->Ok_0 is Some,
        m.publish_state != PublishState::Unpublished && m.publish_state != PublishState::Creating
            && m.publish_provider is None && m.publish_owner is None && m.publish_name is None
            ==> creating_in(m) is Ok && creating_in(m)->Ok_0 is None,
{
}

} // verus!
