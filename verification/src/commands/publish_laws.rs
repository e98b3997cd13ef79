//! What every publication keeps to, whatever Git answers: it asks before it changes anything,
//! records what it is about to do before it does it, pushes at most once and never by force, and
//! claims success only once the hosting side has confirmed it.
use vstd::prelude::*;
use crate::bytes::{lit, starts_with, COLON, PLUS};
use crate::commands::publish::{
    default_branch_run, inspect_run, preflight_run, probe_run, remote_name_run, rerun, RequestView,
    Resume,
};
use crate::commands::publish_push::{
    add_remote_run, configure_remote_run, live_url_run, plain_refspecs, point_head_run, push_call,
    push_run, receipt_for, ref_exists_run, refspec_run, refspecs_run, resolve_run,
    server_head_run, set_and_verify_run, url_check_run, verify_tracking_run, wildcard_of,
};
use crate::commands::publish_run::{
    advance_run, confirm_head_run, heal_run, healed_run, mutate_run, publication,
    publish_and_verify_run, push_lines, repair_run, settle_repair_run, settle_run,
};
use crate::error::ExitClass;
use crate::git::config::{
    config_values_run, config_write, get_all, local_heads_run, one_upstream, remote_head_run,
    remote_head_target, required_step, set_config_run, show_ref_quietly, target_commit,
    target_object, unset_all_run, upstreams_from, upstreams_run, write_upstream, Outcome,
};
use crate::git::fetch::{fetch_from, fetch_one};
use crate::git::provider::ProviderSession;
use crate::git::query::{any_commit_run, branch_ref_of, local_branch_run};
use crate::git::remote::{
    advert_in, advertise_run, ancestry_run, delete_probe_run, fetch_probe_run, probe_name,
    purge_from, purge_run, Ancestry, PROBE_PREFIX,
};
use crate::git::runner::{
    answer_to, args1, args3, args6, grown, invoke, step, InvocationView, Session,
};
use crate::grove::discover::{bare_of, config_of};
use crate::grove::metadata::{
    clear_key, read_key_run, read_run, rollback_run, state_word, write_key, write_receipt_run,
    MetadataView, PublishState, ReceiptView,
};

verus! {

// ------------------------------------------------------------------ kinds of calls

/// Reading every value of a configuration key.
pub open spec fn reads_configuration(i: InvocationView) -> bool {
    exists|config: Seq<u8>, key: Seq<u8>| i == #[trigger] get_all(config, key)
}

/// The refspec that fetches a branch under a name below the probe namespace.
pub open spec fn probe_refspec(branch: Seq<u8>, nonce: Seq<char>) -> Seq<u8> {
    (lit("+refs/heads/") + branch).push(COLON) + probe_name(nonce)
}

/// Fetching into, or deleting, a ref below the namespace that probing keeps to itself.
pub open spec fn touches_a_probe(i: InvocationView) -> bool {
    ||| i.args.len() == 4 && i.args[0] == lit("update-ref") && starts_with(
        i.args[3],
        lit(PROBE_PREFIX),
    )
    ||| i.args.len() == 10 && i.args[0] == lit("fetch") && exists|
        branch: Seq<u8>,
        nonce: Seq<char>,
    |
        i.args[9] == #[trigger] probe_refspec(branch, nonce)
}

/// Whether a call leaves a grove as it is, but for refs of its own below the probe namespace.
pub open spec fn asks(i: InvocationView) -> bool {
    i.args.len() > 0 && {
        ||| i.args[0] == lit("check-ref-format")
        ||| i.args[0] == lit("for-each-ref")
        ||| i.args[0] == lit("show-ref")
        ||| i.args[0] == lit("ls-remote")
        ||| i.args[0] == lit("merge-base")
        ||| i.args == args3(lit("symbolic-ref"), lit("--quiet"), lit("HEAD"))
        ||| reads_configuration(i)
        ||| touches_a_probe(i)
    }
}

pub open spec fn is_push(i: InvocationView) -> bool {
    i.args.len() > 0 && i.args[0] == lit("push")
}

/// Whether every one of some refs is a local branch.
pub open spec fn are_branches(refs: Seq<Seq<u8>>) -> bool {
    forall|i: int| 0 <= i < refs.len() ==> starts_with(#[trigger] refs[i], lit("refs/heads/"))
}

/// A push that is atomic, takes no option that forces, and names for each branch the same ref on
/// both sides without a sign that forces.
pub open spec fn plain_push(i: InvocationView) -> bool {
    exists|root: Seq<u8>, remote: Seq<u8>, sources: Seq<Seq<u8>>|
        are_branches(sources) && i == #[trigger] push_call(root, remote, plain_refspecs(sources))
}

/// Whether nothing but asking lies between two states of a session.
#[verifier::opaque]
pub open spec fn only_asks(a: Session, b: Session) -> bool {
    &&& grown(a, b)
    &&& forall|i: int| a.calls.len() <= i < b.calls.len() ==> asks(#[trigger] b.calls[i])
}

/// Whether no push lies between two states of a session.
#[verifier::opaque]
pub open spec fn pushes_nothing(a: Session, b: Session) -> bool {
    &&& grown(a, b)
    &&& forall|i: int| a.calls.len() <= i < b.calls.len() ==> !is_push(#[trigger] b.calls[i])
}

/// Whether at most one push lies between two states of a session, and only a plain one.
#[verifier::opaque]
pub open spec fn pushes_plainly(a: Session, b: Session) -> bool {
    &&& grown(a, b)
    &&& forall|i: int|
        a.calls.len() <= i < b.calls.len() && is_push(#[trigger] b.calls[i]) ==> plain_push(
            b.calls[i],
        )
    &&& forall|i: int, j: int|
        a.calls.len() <= i < b.calls.len() && a.calls.len() <= j < b.calls.len() && is_push(
            #[trigger] b.calls[i],
        ) && is_push(#[trigger] b.calls[j]) ==> i == j
}

proof fn lemma_words()
    ensures
        lit("config") != lit("push"),
        lit("remote") != lit("push"),
        lit("fetch") != lit("push"),
        lit("show-ref") != lit("push"),
        lit("for-each-ref") != lit("push"),
        lit("symbolic-ref") != lit("push"),
        lit("rev-parse") != lit("push"),
        lit("merge-base") != lit("push"),
        lit("update-ref") != lit("push"),
        lit("ls-remote") != lit("push"),
        lit("check-ref-format") != lit("push"),
{
    reveal_strlit("push");
    reveal_strlit("config");
    reveal_strlit("remote");
    reveal_strlit("fetch");
    reveal_strlit("show-ref");
    reveal_strlit("for-each-ref");
    reveal_strlit("symbolic-ref");
    reveal_strlit("rev-parse");
    reveal_strlit("merge-base");
    reveal_strlit("update-ref");
    reveal_strlit("ls-remote");
    reveal_strlit("check-ref-format");
    broadcast use vstd::utf8::encode_utf8_decode_utf8;

    assert(vstd::utf8::decode_utf8(lit("push")) == "push"@);
    assert(vstd::utf8::decode_utf8(lit("config")) == "config"@);
    assert(vstd::utf8::decode_utf8(lit("remote")) == "remote"@);
    assert(vstd::utf8::decode_utf8(lit("fetch")) == "fetch"@);
    assert(vstd::utf8::decode_utf8(lit("show-ref")) == "show-ref"@);
    assert(vstd::utf8::decode_utf8(lit("for-each-ref")) == "for-each-ref"@);
    assert(vstd::utf8::decode_utf8(lit("symbolic-ref")) == "symbolic-ref"@);
    assert(vstd::utf8::decode_utf8(lit("rev-parse")) == "rev-parse"@);
    assert(vstd::utf8::decode_utf8(lit("merge-base")) == "merge-base"@);
    assert(vstd::utf8::decode_utf8(lit("update-ref")) == "update-ref"@);
    assert(vstd::utf8::decode_utf8(lit("ls-remote")) == "ls-remote"@);
    assert(vstd::utf8::decode_utf8(lit("check-ref-format")) == "check-ref-format"@);
    assert("push"@.len() == 4);
}

// --------------------------------------------------------------------- putting together

broadcast proof fn lemma_asks_on(a: Session, b: Session, c: Session)
    requires
        #[trigger] only_asks(a, b),
        #[trigger] only_asks(b, c),
    ensures
        only_asks(a, c),
{
    reveal(only_asks);
    assert forall|i: int| 0 <= i < a.calls.len() implies #[trigger] c.calls[i] == a.calls[i] by {
        assert(c.calls[i] == b.calls[i]);
        assert(b.calls[i] == a.calls[i]);
    }
    assert forall|i: int| a.calls.len() <= i < c.calls.len() implies asks(
        #[trigger] c.calls[i],
    ) by {
        if i < b.calls.len() {
            assert(c.calls[i] == b.calls[i]);
        }
    }
}

broadcast proof fn lemma_nothing_on(a: Session, b: Session, c: Session)
    requires
        #[trigger] pushes_nothing(a, b),
        #[trigger] pushes_nothing(b, c),
    ensures
        pushes_nothing(a, c),
{
    reveal(pushes_nothing);
    assert forall|i: int| 0 <= i < a.calls.len() implies #[trigger] c.calls[i] == a.calls[i] by {
        assert(c.calls[i] == b.calls[i]);
        assert(b.calls[i] == a.calls[i]);
    }
    assert forall|i: int| a.calls.len() <= i < c.calls.len() implies !is_push(
        #[trigger] c.calls[i],
    ) by {
        if i < b.calls.len() {
            assert(c.calls[i] == b.calls[i]);
        }
    }
}

/// A push that lies between two states lies in the part where pushing is allowed.
proof fn lemma_plainly_on(a: Session, b: Session, c: Session)
    requires
        pushes_nothing(a, b) && pushes_plainly(b, c) || pushes_plainly(a, b) && pushes_nothing(b, c),
    ensures
        pushes_plainly(a, c),
{
    reveal(pushes_nothing);
    reveal(pushes_plainly);
    assert forall|i: int| 0 <= i < a.calls.len() implies #[trigger] c.calls[i] == a.calls[i] by {
        assert(c.calls[i] == b.calls[i]);
        assert(b.calls[i] == a.calls[i]);
    }
    assert forall|i: int|
        a.calls.len() <= i < c.calls.len() && is_push(#[trigger] c.calls[i]) implies plain_push(
        c.calls[i],
    ) by {
        if i < b.calls.len() {
            assert(c.calls[i] == b.calls[i]);
        }
    }
    assert forall|i: int, j: int|
        a.calls.len() <= i < c.calls.len() && a.calls.len() <= j < c.calls.len() && is_push(
            #[trigger] c.calls[i],
        ) && is_push(#[trigger] c.calls[j]) implies i == j by {
        if i < b.calls.len() {
            assert(c.calls[i] == b.calls[i]);
        }
        if j < b.calls.len() {
            assert(c.calls[j] == b.calls[j]);
        }
    }
}

broadcast proof fn lemma_nothing_is_plain(a: Session, b: Session)
    requires
        #[trigger] pushes_nothing(a, b),
    ensures
        pushes_plainly(a, b),
{
    reveal(pushes_nothing);
    reveal(pushes_plainly);
}

broadcast proof fn lemma_nothing_happened(a: Session)
    ensures
        #[trigger] pushes_nothing(a, a),
{
    reveal(pushes_nothing);
}

broadcast proof fn lemma_nothing_asked(a: Session)
    ensures
        #[trigger] only_asks(a, a),
{
    reveal(only_asks);
}

proof fn lemma_asking_is_no_push(i: InvocationView)
    requires
        asks(i),
    ensures
        !is_push(i),
{
    lemma_words();
    if reads_configuration(i) {
        let (config, key) = choose|config: Seq<u8>, key: Seq<u8>|
            i == #[trigger] get_all(config, key);
        assert(get_all(config, key).args[0] == lit("config"));
    }
    if i.args == args3(lit("symbolic-ref"), lit("--quiet"), lit("HEAD")) {
        assert(i.args[0] == lit("symbolic-ref"));
    }
}

broadcast proof fn lemma_asking_pushes_nothing(a: Session, b: Session)
    requires
        #[trigger] only_asks(a, b),
    ensures
        pushes_nothing(a, b),
{
    reveal(only_asks);
    reveal(pushes_nothing);
    assert forall|i: int| a.calls.len() <= i < b.calls.len() implies !is_push(
        #[trigger] b.calls[i],
    ) by {
        lemma_asking_is_no_push(b.calls[i]);
    }
}

proof fn lemma_asks_step(s: Session, i: InvocationView)
    requires
        asks(i),
    ensures
        only_asks(s, step(s, i).0),
{
    reveal(only_asks);
}

proof fn lemma_quiet_step(s: Session, i: InvocationView)
    requires
        !is_push(i),
    ensures
        pushes_nothing(s, step(s, i).0),
{
    reveal(pushes_nothing);
}

// ------------------------------------------------------------------------- asking

proof fn lemma_values(s: Session, config: Seq<u8>, key: Seq<u8>)
    ensures
        only_asks(s, config_values_run(s, config, key).0),
{
    lemma_asks_step(s, get_all(config, key));
}

proof fn lemma_advertise(s: Session, url: Seq<u8>)
    ensures
        only_asks(s, advertise_run(s, url).0),
{
    lemma_asks_step(
        s,
        invoke(
            args6(
                lit("ls-remote"),
                lit("--symref"),
                lit("--"),
                url,
                lit("HEAD"),
                lit("refs/heads/*"),
            ),
        ),
    );
}

proof fn lemma_preflight(s: Session, root: Seq<u8>, m: MetadataView, request: RequestView)
    ensures
        only_asks(s, preflight_run(s, root, m, request).0),
{
    broadcast use {lemma_asks_on, lemma_nothing_asked};

    reveal(only_asks);
    if request.url.len() > 0 {
        let (s1, named) = remote_name_run(s, request.remote);
        if named is Ok {
            let (s2, commits) = any_commit_run(s1, root);
            if commits == Ok::<bool, crate::error::ErrorView>(true) {
                let (s3, found) = default_branch_run(s2, root, m.default_branch);
                if found is Ok {
                    let (s4, there) = local_branch_run(s3, root, found->Ok_0);
                }
            }
        }
    }
}

proof fn lemma_delete(s: Session, root: Seq<u8>, name: Seq<u8>)
    ensures
        only_asks(s, delete_probe_run(s, root, name).0),
{
    reveal(only_asks);
}

proof fn lemma_purge_from(
    s: Session,
    root: Seq<u8>,
    lines: Seq<Seq<u8>>,
    purged: Seq<Seq<u8>>,
    i: int,
)
    ensures
        only_asks(s, purge_from(s, root, lines, purged, i).0),
    decreases lines.len() - i,
{
    broadcast use {lemma_asks_on, lemma_nothing_asked};

    if i >= lines.len() {
    } else if lines[i].len() == 0 {
        lemma_purge_from(s, root, lines, purged, i + 1);
    } else if starts_with(lines[i], lit(PROBE_PREFIX)) {
        lemma_delete(s, root, lines[i]);
        let (s1, deleted) = delete_probe_run(s, root, lines[i]);
        if deleted is Ok {
            lemma_purge_from(s1, root, lines, purged.push(lines[i]), i + 1);
        }
    }
}

proof fn lemma_purge(s: Session, root: Seq<u8>)
    ensures
        only_asks(s, purge_run(s, root).0),
{
    broadcast use lemma_asks_on;

    let i = crate::git::runner::invoke_in(
        bare_of(root),
        crate::git::runner::args4(
            lit("for-each-ref"),
            lit("--format=%(refname)"),
            lit("--"),
            lit(PROBE_PREFIX).push(crate::bytes::STAR),
        ),
    );
    lemma_asks_step(s, i);
    let (s1, reply) = step(s, i);
    if reply is Ok && reply->Ok_0.ok() {
        lemma_purge_from(
            s1,
            root,
            crate::bytes::split(reply->Ok_0.stdout, crate::bytes::LF),
            seq![],
            0,
        );
    }
}

proof fn lemma_probe(
    s: Session,
    root: Seq<u8>,
    url: Seq<u8>,
    branch: Seq<u8>,
    nonce: Outcome<Seq<char>>,
)
    ensures
        only_asks(s, probe_run(s, root, url, branch, nonce).0),
{
    broadcast use {lemma_asks_on, lemma_nothing_asked};

    let (s1, fetched) = fetch_probe_run(s, root, url, branch, nonce);
    assert(only_asks(s, s1)) by {
        reveal(only_asks);
        if nonce is Ok {
            assert(asks(s1.calls[s.calls.len() as int])) by {
                assert(s1.calls[s.calls.len() as int].args[9] == probe_refspec(
                    branch,
                    nonce->Ok_0,
                ));
            }
        }
    }
    if fetched is Ok {
        let (s2, verdict) = ancestry_run(s1, root, fetched->Ok_0, branch_ref_of(branch));
        assert(only_asks(s1, s2)) by {
            reveal(only_asks);
        }
        lemma_delete(s2, root, fetched->Ok_0);
    }
}

proof fn lemma_inspect(
    s: Session,
    root: Seq<u8>,
    url: Seq<u8>,
    branch: Seq<u8>,
    nonce: Outcome<Seq<char>>,
)
    ensures
        only_asks(s, inspect_run(s, root, url, branch, nonce).0),
{
    broadcast use lemma_asks_on;

    lemma_purge(s, root);
    let (s1, purged) = purge_run(s, root);
    if purged is Ok {
        lemma_advertise(s1, url);
        let (s2, advert) = advertise_run(s1, url);
        if advert is Ok {
            lemma_probe(s2, root, url, branch, nonce);
        }
    }
}

// ----------------------------------------------------------------- changing the grove

proof fn lemma_set(s: Session, config: Seq<u8>, key: Seq<u8>, value: Seq<u8>, add: bool)
    ensures
        pushes_nothing(s, set_config_run(s, config, key, value, add).0),
{
    lemma_words();
    lemma_quiet_step(s, config_write(config, key, value, add));
}

proof fn lemma_unset(s: Session, config: Seq<u8>, key: Seq<u8>)
    ensures
        pushes_nothing(s, unset_all_run(s, config, key).0),
{
    lemma_words();
    reveal(pushes_nothing);
}

proof fn lemma_set_and_verify(s: Session, config: Seq<u8>, key: Seq<u8>, value: Seq<u8>)
    ensures
        pushes_nothing(s, set_and_verify_run(s, config, key, value).0),
{
    broadcast use {lemma_nothing_on, lemma_asking_pushes_nothing};

    lemma_values(s, config, key);
    let (s1, now) = config_values_run(s, config, key);
    lemma_set(s1, config, key, value, false);
    let (s2, done) = set_config_run(s1, config, key, value, false);
    lemma_values(s2, config, key);
}

proof fn lemma_refspec(s: Session, root: Seq<u8>, remote: Seq<u8>)
    ensures
        pushes_nothing(s, refspec_run(s, root, remote).0),
{
    broadcast use {lemma_nothing_on, lemma_asking_pushes_nothing};

    let config = config_of(root);
    let key = crate::git::config::key_of("remote.", remote, ".fetch");
    let want = wildcard_of(remote);
    lemma_values(s, config, key);
    let (s1, now) = config_values_run(s, config, key);
    lemma_unset(s1, config, key);
    let (s2, cleared) = unset_all_run(s1, config, key);
    lemma_set(s2, config, key, want, true);
    let (s3, added) = set_config_run(s2, config, key, want, true);
    lemma_values(s3, config, key);
}

proof fn lemma_configure(s: Session, root: Seq<u8>, request: RequestView, present: bool)
    ensures
        pushes_nothing(s, configure_remote_run(s, root, request, present).0),
{
    broadcast use {lemma_nothing_on, lemma_asking_pushes_nothing, lemma_nothing_happened};

    let (s1, added) = add_remote_run(s, root, request, present);
    assert(pushes_nothing(s, s1)) by {
        lemma_words();
        reveal(pushes_nothing);
    }
    lemma_values(
        s1,
        config_of(root),
        crate::git::config::key_of("remote.", request.remote, ".url"),
    );
    let (s2, checked) = url_check_run(s1, root, request);
    lemma_refspec(s2, root, request.remote);
    let (s3, refspecs) = refspec_run(s2, root, request.remote);
    lemma_set_and_verify(s3, config_of(root), lit("worktree.guessRemote"), lit("true"));
    let (s4, guessed) = set_and_verify_run(
        s3,
        config_of(root),
        lit("worktree.guessRemote"),
        lit("true"),
    );
    lemma_set_and_verify(s4, config_of(root), lit("grove.remote"), request.remote);
}

proof fn lemma_heads(s: Session, bare: Seq<u8>)
    ensures
        pushes_nothing(s, local_heads_run(s, bare).0),
{
    lemma_words();
    reveal(pushes_nothing);
}

proof fn lemma_write_upstream(s: Session, config: Seq<u8>, remote: Seq<u8>, local: Seq<u8>)
    ensures
        pushes_nothing(s, write_upstream(s, config, remote, local).0),
{
    broadcast use {lemma_nothing_on, lemma_asking_pushes_nothing};

    let branch = crate::bytes::after(local, lit("refs/heads/").len() as int);
    let remote_key = crate::git::config::key_of("branch.", branch, ".remote");
    let merge_key = crate::git::config::key_of("branch.", branch, ".merge");
    lemma_set(s, config, remote_key, remote, false);
    let (s1, first) = set_config_run(s, config, remote_key, remote, false);
    lemma_set(s1, config, merge_key, local, false);
    let (s2, second) = set_config_run(s1, config, merge_key, local, false);
    lemma_values(s2, config, remote_key);
    let (s3, remotes) = config_values_run(s2, config, remote_key);
    lemma_values(s3, config, merge_key);
}

proof fn lemma_one_upstream(
    s: Session,
    bare: Seq<u8>,
    remote: Seq<u8>,
    refspecs: Seq<Seq<u8>>,
    local: Seq<u8>,
)
    ensures
        pushes_nothing(s, one_upstream(s, bare, remote, refspecs, local).0),
{
    broadcast use {lemma_nothing_on, lemma_nothing_happened};

    let candidates = crate::git::config::destinations(refspecs, local, refspecs.len() as int);
    if candidates.len() > 0 {
        let i = show_ref_quietly(bare, candidates[0]);
        assert(pushes_nothing(s, step(s, i).0)) by {
            lemma_words();
            lemma_quiet_step(s, i);
        }
        lemma_write_upstream(
            step(s, i).0,
            crate::path::child(bare, lit("config")),
            remote,
            local,
        );
    }
}

proof fn lemma_upstreams_from(
    s: Session,
    bare: Seq<u8>,
    remote: Seq<u8>,
    refspecs: Seq<Seq<u8>>,
    heads: Seq<Seq<u8>>,
    i: int,
)
    ensures
        pushes_nothing(s, upstreams_from(s, bare, remote, refspecs, heads, i).0),
    decreases heads.len() - i,
{
    broadcast use {lemma_nothing_on, lemma_nothing_happened};

    if i < heads.len() {
        lemma_one_upstream(s, bare, remote, refspecs, heads[i]);
        let (s1, done) = one_upstream(s, bare, remote, refspecs, heads[i]);
        lemma_upstreams_from(s1, bare, remote, refspecs, heads, i + 1);
    }
}

proof fn lemma_upstreams(s: Session, bare: Seq<u8>, remote: Seq<u8>, refspecs: Seq<Seq<u8>>)
    ensures
        pushes_nothing(s, upstreams_run(s, bare, remote, refspecs).0),
{
    broadcast use lemma_nothing_on;

    lemma_heads(s, bare);
    let (s1, heads) = local_heads_run(s, bare);
    if heads is Ok {
        lemma_upstreams_from(s1, bare, remote, refspecs, heads->Ok_0, 0);
    }
}

proof fn lemma_fetch(s: Session, root: Seq<u8>, remotes: Seq<Seq<u8>>, i: int)
    ensures
        pushes_nothing(s, fetch_from(s, root, remotes, i).0),
    decreases remotes.len() - i,
{
    broadcast use {lemma_nothing_on, lemma_nothing_happened};

    if i < remotes.len() {
        let call = fetch_one(bare_of(root), remotes[i]);
        assert(pushes_nothing(s, step(s, call).0)) by {
            lemma_words();
            lemma_quiet_step(s, call);
        }
        lemma_fetch(step(s, call).0, root, remotes, i + 1);
    }
}

proof fn lemma_ref_exists(s: Session, root: Seq<u8>, reference: Seq<u8>)
    ensures
        pushes_nothing(s, ref_exists_run(s, root, reference).0),
{
    lemma_words();
    reveal(pushes_nothing);
}

proof fn lemma_verify_tracking(s: Session, root: Seq<u8>, remote: Seq<u8>, branch: Seq<u8>)
    ensures
        pushes_nothing(s, verify_tracking_run(s, root, remote, branch).0),
{
    broadcast use lemma_nothing_on;

    let reference = crate::commands::publish_push::tracking_of(remote, branch);
    lemma_ref_exists(s, root, reference);
    let (s1, there) = ref_exists_run(s, root, reference);
    lemma_fetch(s1, root, args1(remote), 0);
    let (s2, fetched) = fetch_from(s1, root, args1(remote), 0);
    lemma_ref_exists(s2, root, reference);
}

proof fn lemma_point_head(s: Session, root: Seq<u8>, remote: Seq<u8>, branch: Seq<u8>)
    ensures
        pushes_nothing(s, point_head_run(s, root, remote, branch).0),
{
    broadcast use {lemma_nothing_on, lemma_nothing_happened};

    let i = crate::git::runner::invoke_in(
        bare_of(root),
        crate::git::runner::args5(
            lit("remote"),
            lit("set-head"),
            lit("--auto"),
            lit("--"),
            remote,
        ),
    );
    assert(pushes_nothing(s, step(s, i).0)) by {
        lemma_words();
        lemma_quiet_step(s, i);
    }
    let s1 = step(s, i).0;
    let bare = bare_of(root);
    let (s2, target) = remote_head_target(s1, bare, remote);
    assert(pushes_nothing(s1, s2)) by {
        lemma_words();
        reveal(pushes_nothing);
    }
    if target is Ok {
        let (s3, held) = target_object(s2, bare, target->Ok_0);
        assert(pushes_nothing(s2, s3)) by {
            lemma_words();
            reveal(pushes_nothing);
        }
        assert(pushes_nothing(s3, target_commit(s3, bare, target->Ok_0).0)) by {
            lemma_words();
            reveal(pushes_nothing);
        }
    }
    assert(pushes_nothing(s1, remote_head_run(s1, bare, remote).0));
}

proof fn lemma_confirm(
    s: Session,
    p: Option<ProviderSession>,
    m: MetadataView,
    request: RequestView,
    branch: Seq<u8>,
)
    ensures
        only_asks(s, confirm_head_run(s, p, m, request, branch).0),
{
    broadcast use lemma_asks_on;

    lemma_advertise(s, request.url);
    let (s1, first) = server_head_run(s, request.url, branch);
    lemma_advertise(s1, request.url);
}

proof fn lemma_receipt(s: Session, root: Seq<u8>, state: PublishState, receipt: ReceiptView)
    ensures
        pushes_nothing(s, write_receipt_run(s, root, state, receipt).0),
{
    broadcast use lemma_nothing_on;

    lemma_set(s, config_of(root), lit("grove.publishState"), state_word(state), false);
    let (s1, first) = write_key(s, root, "grove.publishState", state_word(state));
    lemma_set(s1, config_of(root), lit("grove.publishRemote"), receipt.remote, false);
    let (s2, second) = write_key(s1, root, "grove.publishRemote", receipt.remote);
    lemma_set(s2, config_of(root), lit("grove.publishUrl"), receipt.url, false);
}

proof fn lemma_read_key(s: Session, config: Seq<u8>, key: &str)
    ensures
        pushes_nothing(s, read_key_run(s, config, key).0),
{
    lemma_words();
    reveal(pushes_nothing);
}

proof fn lemma_read(s: Session, root: Seq<u8>)
    ensures
        pushes_nothing(s, read_run(s, root).0),
{
    broadcast use lemma_nothing_on;

    let config = config_of(root);
    lemma_read_key(s, config, "grove.version");
    let s1 = read_key_run(s, config, "grove.version").0;
    lemma_read_key(s1, config, "grove.defaultBranch");
    let s2 = read_key_run(s1, config, "grove.defaultBranch").0;
    lemma_read_key(s2, config, "grove.remote");
    let s3 = read_key_run(s2, config, "grove.remote").0;
    lemma_read_key(s3, config, "grove.publishState");
    let s4 = read_key_run(s3, config, "grove.publishState").0;
    lemma_read_key(s4, config, "grove.publishRemote");
    let s5 = read_key_run(s4, config, "grove.publishRemote").0;
    lemma_read_key(s5, config, "grove.publishUrl");
    let s6 = read_key_run(s5, config, "grove.publishUrl").0;
    lemma_read_key(s6, config, "grove.publishProvider");
    let s7 = read_key_run(s6, config, "grove.publishProvider").0;
    lemma_read_key(s7, config, "grove.publishOwner");
    let s8 = read_key_run(s7, config, "grove.publishOwner").0;
    lemma_read_key(s8, config, "grove.publishName");
}

proof fn lemma_heal(s: Session, root: Seq<u8>, m: MetadataView)
    ensures
        pushes_nothing(s, heal_run(s, root, m).0),
{
    broadcast use {lemma_nothing_on, lemma_nothing_happened};

    let config = config_of(root);
    lemma_unset(s, config, lit("grove.publishProvider"));
    let s1 = clear_key(s, root, "grove.publishProvider").0;
    lemma_unset(s1, config, lit("grove.publishOwner"));
    let s2 = clear_key(s1, root, "grove.publishOwner").0;
    lemma_unset(s2, config, lit("grove.publishName"));
    let s3 = clear_key(s2, root, "grove.publishName").0;
    lemma_unset(s3, config, lit("grove.publishRemote"));
    let s4 = clear_key(s3, root, "grove.publishRemote").0;
    lemma_set(s4, config, lit("grove.publishState"), state_word(PublishState::Unpublished), false);
    assert(pushes_nothing(s, rollback_run(s, root).0));
    lemma_read(rollback_run(s, root).0, root);
}

// ------------------------------------------------------------------------- pushing

proof fn lemma_heads_are_branches(s: Session, bare: Seq<u8>)
    ensures
        local_heads_run(s, bare).1 matches Ok(heads) ==> are_branches(heads),
{
    let i = crate::git::runner::invoke_in(
        bare,
        crate::git::runner::args4(
            lit("for-each-ref"),
            lit("--format=%(refname)"),
            lit("--"),
            lit("refs/heads"),
        ),
    );
    let reply = required_step(s, i, "for-each-ref local heads"@).1;
    if reply is Ok && local_heads_run(s, bare).1 is Ok {
        let lines = crate::bytes::split(reply->Ok_0.stdout, crate::bytes::LF);
        crate::git::config::listed_heads_are_local_branches(lines, lines.len() as int);
    }
}

proof fn lemma_push(s: Session, root: Seq<u8>, request: RequestView, branch: Seq<u8>)
    ensures
        pushes_nothing(s, refspecs_run(s, root, request, branch).0),
        refspecs_run(s, root, request, branch).1 matches Ok(refspecs) ==> pushes_plainly(
            s,
            push_run(
                refspecs_run(s, root, request, branch).0,
                root,
                request.remote,
                refspecs,
            ).0,
        ),
{
    broadcast use lemma_nothing_happened;

    lemma_heads(s, bare_of(root));
    let (s1, found) = refspecs_run(s, root, request, branch);
    if found is Ok {
        let sources = if request.all_branches {
            local_heads_run(s, bare_of(root)).1->Ok_0
        } else {
            args1(branch_ref_of(branch))
        };
        assert(found->Ok_0 == plain_refspecs(sources));
        assert(are_branches(sources)) by {
            lemma_heads_are_branches(s, bare_of(root));
            assert(starts_with(branch_ref_of(branch), lit("refs/heads/"))) by {
                assert(branch_ref_of(branch).subrange(0, lit("refs/heads/").len() as int)
                    =~= lit("refs/heads/"));
            }
        }
        let call = push_call(root, request.remote, plain_refspecs(sources));
        assert(plain_push(call));
        assert(pushes_plainly(s1, step(s1, call).0)) by {
            reveal(pushes_plainly);
        }
        lemma_plainly_on(s, s1, step(s1, call).0);
    }
}

proof fn lemma_settle(
    s: Session,
    p: Option<ProviderSession>,
    root: Seq<u8>,
    m: MetadataView,
    request: RequestView,
    branch: Seq<u8>,
    lines: Seq<Seq<char>>,
    diagnostics: Seq<Seq<char>>,
    guide: Option<Seq<u8>>,
)
    ensures
        pushes_nothing(
            s,
            settle_run(s, p, root, m, request, branch, lines, diagnostics, guide).0,
        ),
{
    broadcast use {lemma_nothing_on, lemma_asking_pushes_nothing};

    lemma_confirm(s, p, m, request, branch);
    let s1 = confirm_head_run(s, p, m, request, branch).0;
    lemma_point_head(s1, root, request.remote, branch);
    let s2 = point_head_run(s1, root, request.remote, branch).0;
    lemma_receipt(s2, root, PublishState::Published, receipt_for(request));
}

proof fn lemma_publish_and_verify(
    s: Session,
    p: Option<ProviderSession>,
    root: Seq<u8>,
    m: MetadataView,
    request: RequestView,
    branch: Seq<u8>,
    diagnostics: Seq<Seq<char>>,
    guide: Option<Seq<u8>>,
)
    ensures
        pushes_plainly(
            s,
            publish_and_verify_run(s, p, root, m, request, branch, diagnostics, guide).0,
        ),
{
    broadcast use {lemma_nothing_on, lemma_nothing_happened, lemma_nothing_is_plain};

    lemma_push(s, root, request, branch);
    let (s1, found) = refspecs_run(s, root, request, branch);
    if found is Ok {
        let (s2, pushed) = push_run(s1, root, request.remote, found->Ok_0);
        if pushed is Ok {
            let refspecs = args1(wildcard_of(request.remote));
            lemma_upstreams(s2, bare_of(root), request.remote, refspecs);
            let s3 = upstreams_run(s2, bare_of(root), request.remote, refspecs).0;
            lemma_verify_tracking(s3, root, request.remote, branch);
            let s4 = verify_tracking_run(s3, root, request.remote, branch).0;
            let lines = push_lines(request, branch, found->Ok_0.len());
            lemma_settle(s4, p, root, m, request, branch, lines, diagnostics, guide);
            let last = publish_and_verify_run(
                s,
                p,
                root,
                m,
                request,
                branch,
                diagnostics,
                guide,
            ).0;
            assert(pushes_nothing(s2, last));
            lemma_plainly_on(s, s2, last);
        }
    }
}

proof fn lemma_resolve(s: Session, root: Seq<u8>, reference: Seq<u8>)
    ensures
        pushes_nothing(s, resolve_run(s, root, reference).0),
{
    lemma_words();
    reveal(pushes_nothing);
}

proof fn lemma_advance(s: Session, root: Seq<u8>, request: RequestView, branch: Seq<u8>)
    ensures
        pushes_plainly(s, advance_run(s, root, request, branch).0),
{
    broadcast use {lemma_nothing_on, lemma_nothing_is_plain};

    let local = branch_ref_of(branch);
    let tracking = crate::commands::publish_push::tracking_of(request.remote, branch);
    let (s1, verdict) = ancestry_run(s, root, tracking, local);
    assert(pushes_nothing(s, s1)) by {
        lemma_words();
        reveal(pushes_nothing);
    }
    lemma_resolve(s1, root, tracking);
    let s2 = resolve_run(s1, root, tracking).0;
    lemma_resolve(s2, root, local);
    let s3 = resolve_run(s2, root, local).0;
    lemma_push(s3, root, request, branch);
    let (s4, found) = refspecs_run(s3, root, request, branch);
    if found is Ok {
        lemma_plainly_on(s, s3, push_run(s4, root, request.remote, found->Ok_0).0);
    }
}

proof fn lemma_repair(
    s: Session,
    p: Option<ProviderSession>,
    root: Seq<u8>,
    m: MetadataView,
    request: RequestView,
    branch: Seq<u8>,
)
    ensures
        pushes_plainly(s, repair_run(s, p, root, m, request, branch).0),
{
    broadcast use {lemma_nothing_on, lemma_nothing_is_plain, lemma_asking_pushes_nothing};

    lemma_fetch(s, root, args1(request.remote), 0);
    let s1 = fetch_from(s, root, args1(request.remote), 0).0;
    lemma_configure(s1, root, request, true);
    let s2 = configure_remote_run(s1, root, request, true).0;
    let refspecs = args1(wildcard_of(request.remote));
    lemma_upstreams(s2, bare_of(root), request.remote, refspecs);
    let s3 = upstreams_run(s2, bare_of(root), request.remote, refspecs).0;
    lemma_advance(s3, root, request, branch);
    let s4 = advance_run(s3, root, request, branch).0;
    lemma_plainly_on(s, s3, s4);
    lemma_verify_tracking(s4, root, request.remote, branch);
    let s5 = verify_tracking_run(s4, root, request.remote, branch).0;
    lemma_plainly_on(s, s4, s5);
    lemma_confirm(s5, p, m, request, branch);
    let s6 = confirm_head_run(s5, p, m, request, branch).0;
    lemma_plainly_on(s, s5, s6);
    lemma_receipt(s6, root, PublishState::Publishing, receipt_for(request));
    lemma_plainly_on(
        s,
        s6,
        write_receipt_run(s6, root, PublishState::Publishing, receipt_for(request)).0,
    );
    lemma_point_head(s6, root, request.remote, branch);
    lemma_plainly_on(s, s6, point_head_run(s6, root, request.remote, branch).0);
}

proof fn lemma_mutate(
    s: Session,
    p: Option<ProviderSession>,
    root: Seq<u8>,
    m: MetadataView,
    request: RequestView,
    branch: Seq<u8>,
    notes: Seq<Seq<char>>,
    present: bool,
    guide: Option<Seq<u8>>,
)
    ensures
        pushes_plainly(
            s,
            mutate_run(s, p, root, m, request, branch, notes, present, guide).0,
        ),
{
    broadcast use {lemma_nothing_on, lemma_nothing_is_plain};

    let receipt = receipt_for(request);
    lemma_receipt(s, root, PublishState::Publishing, receipt);
    let s1 = write_receipt_run(s, root, PublishState::Publishing, receipt).0;
    lemma_configure(s1, root, request, present);
    let s2 = configure_remote_run(s1, root, request, present).0;
    lemma_publish_and_verify(s2, p, root, m, request, branch, notes, guide);
    lemma_plainly_on(
        s,
        s2,
        publish_and_verify_run(s2, p, root, m, request, branch, notes, guide).0,
    );
}

proof fn lemma_healed(
    s: Session,
    p: Option<ProviderSession>,
    root: Seq<u8>,
    m: MetadataView,
    request: RequestView,
    guide: Option<Seq<u8>>,
    nonce: Outcome<Seq<char>>,
)
    ensures
        pushes_plainly(s, healed_run(s, p, root, m, request, guide, nonce).0),
{
    broadcast use {lemma_nothing_on, lemma_nothing_is_plain, lemma_asking_pushes_nothing};

    lemma_values(
        s,
        config_of(root),
        crate::git::config::key_of("remote.", request.remote, ".url"),
    );
    let (s1, live) = live_url_run(s, root, request.remote);
    lemma_preflight(s1, root, m, request);
    let (s2, flight) = preflight_run(s1, root, m, request);
    if live is Ok && flight is Ok {
        let branch = flight->Ok_0;
        lemma_repair(s2, p, root, m, request, branch);
        lemma_plainly_on(s, s2, repair_run(s2, p, root, m, request, branch).0);
        lemma_inspect(s2, root, request.url, branch, nonce);
        let (s3, notes) = inspect_run(s2, root, request.url, branch, nonce);
        if notes is Ok {
            let present = live->Ok_0 is Some;
            lemma_mutate(s3, p, root, m, request, branch, notes->Ok_0, present, guide);
            lemma_plainly_on(
                s,
                s3,
                mutate_run(s3, p, root, m, request, branch, notes->Ok_0, present, guide).0,
            );
        }
    }
}

// ----------------------------------------------------------------------------- laws

/// A publication pushes at most once, whatever it finds and whichever branches it publishes, and
/// never by force: the one push is atomic, takes no option that forces or that writes upstream
/// configuration, and no refspec of it carries the sign that forces.
pub proof fn publications_push_once_and_never_by_force(
    s: Session,
    p: Option<ProviderSession>,
    root: Seq<u8>,
    m: MetadataView,
    request: RequestView,
    guide: Option<Seq<u8>>,
    nonce: Outcome<Seq<char>>,
)
    ensures
        pushes_plainly(s, publication(s, p, root, m, request, guide, nonce).0),
{
    broadcast use lemma_nothing_is_plain;

    lemma_heal(s, root, m);
    let (s1, healed) = heal_run(s, root, m);
    if healed is Ok {
        lemma_healed(s1, p, root, healed->Ok_0, request, guide, nonce);
        lemma_plainly_on(
            s,
            s1,
            healed_run(s1, p, root, healed->Ok_0, request, guide, nonce).0,
        );
    }
}

/// No refspec of a plain push starts with the sign that forces.
pub proof fn plain_pushes_force_nothing(i: InvocationView)
    requires
        plain_push(i),
    ensures
        i.args.len() >= 4,
        i.args[1] == lit("--atomic"),
        i.args[2] == lit("--"),
        forall|k: int|
            4 <= k < i.args.len() ==> (#[trigger] i.args[k]).len() > 0 && i.args[k][0] != PLUS,
{
    let (root, remote, sources) = choose|root: Seq<u8>, remote: Seq<u8>, sources: Seq<Seq<u8>>|
        are_branches(sources) && i == #[trigger] push_call(root, remote, plain_refspecs(sources));
    reveal_strlit("refs/heads/");
    vstd::utf8::is_ascii_chars_encode_utf8("refs/heads/"@);
    assert forall|k: int| 4 <= k < i.args.len() implies (#[trigger] i.args[k]).len() > 0
        && i.args[k][0] != PLUS by {
        let source = sources[k - 4];
        assert(i.args[k] == plain_refspecs(sources)[k - 4]);
        assert(starts_with(source, lit("refs/heads/")));
        assert(source[0] == source.subrange(0, lit("refs/heads/").len() as int)[0]);
        assert(i.args[k][0] == source[0]);
    }
}

/// Whether what lies between two states of a session is asking, up to the first call that is
/// not: that one is the given one.
pub open spec fn first_change_is(a: Session, b: Session, first: InvocationView) -> bool {
    exists|k: int|
        a.calls.len() <= k <= b.calls.len() && #[trigger] asks_until(a, b, k) && (k
            < b.calls.len() ==> b.calls[k] == first)
}

pub open spec fn asks_until(a: Session, b: Session, k: int) -> bool {
    &&& grown(a, b)
    &&& forall|i: int| a.calls.len() <= i < k ==> asks(#[trigger] b.calls[i])
}

/// Recording that a publication is under way.
pub open spec fn opens_the_record(root: Seq<u8>) -> InvocationView {
    config_write(
        config_of(root),
        lit("grove.publishState"),
        state_word(PublishState::Publishing),
        false,
    )
}

proof fn lemma_mutate_records_first(
    s: Session,
    p: Option<ProviderSession>,
    root: Seq<u8>,
    m: MetadataView,
    request: RequestView,
    branch: Seq<u8>,
    notes: Seq<Seq<char>>,
    present: bool,
    guide: Option<Seq<u8>>,
)
    ensures
        grown(
            step(s, opens_the_record(root)).0,
            mutate_run(s, p, root, m, request, branch, notes, present, guide).0,
        ),
{
    broadcast use {lemma_nothing_on, lemma_nothing_happened, lemma_nothing_is_plain};

    let config = config_of(root);
    let receipt = receipt_for(request);
    let last = mutate_run(s, p, root, m, request, branch, notes, present, guide).0;
    let (s0, opened) = step(s, opens_the_record(root));
    lemma_set(s0, config, lit("grove.publishRemote"), receipt.remote, false);
    let s1 = write_key(s0, root, "grove.publishRemote", receipt.remote).0;
    lemma_set(s1, config, lit("grove.publishUrl"), receipt.url, false);
    let (s2, written) = write_receipt_run(s, root, PublishState::Publishing, receipt);
    assert(pushes_nothing(s0, s2));
    if written is Ok {
        lemma_configure(s2, root, request, present);
        let s3 = configure_remote_run(s2, root, request, present).0;
        lemma_publish_and_verify(s3, p, root, m, request, branch, notes, guide);
        lemma_plainly_on(
            s2,
            s3,
            publish_and_verify_run(s3, p, root, m, request, branch, notes, guide).0,
        );
        lemma_plainly_on(s0, s2, last);
    }
    reveal(pushes_nothing);
    reveal(pushes_plainly);
}

proof fn lemma_only_asked(a: Session, b: Session, first: InvocationView)
    requires
        only_asks(a, b),
    ensures
        first_change_is(a, b, first),
{
    reveal(only_asks);
    assert(asks_until(a, b, b.calls.len() as int));
}

proof fn lemma_asked_then_recorded(a: Session, b: Session, c: Session, first: InvocationView)
    requires
        only_asks(a, b),
        grown(step(b, first).0, c),
    ensures
        first_change_is(a, c, first),
{
    reveal(only_asks);
    let opened = step(b, first).0;
    let k = b.calls.len() as int;
    assert(c.calls[k] == opened.calls[k]);
    assert forall|i: int| 0 <= i < k implies #[trigger] c.calls[i] == b.calls[i] by {
        assert(c.calls[i] == opened.calls[i]);
    }
    assert(grown(a, c)) by {
        assert forall|i: int| 0 <= i < a.calls.len() implies #[trigger] c.calls[i]
            == a.calls[i] by {
            assert(b.calls[i] == a.calls[i]);
        }
    }
    assert(asks_until(a, c, k));
}

/// Once what is recorded of a creation is whole, or cleared, a publication that is no repair of a
/// completed one only asks, until it records that it is under way. So one that is refused while the target is inspected leaves the grove untouched,
/// and one that is interrupted later has left its record.
pub proof fn nothing_is_changed_before_the_record(
    s: Session,
    p: Option<ProviderSession>,
    root: Seq<u8>,
    m: MetadataView,
    request: RequestView,
    guide: Option<Seq<u8>>,
    nonce: Outcome<Seq<char>>,
)
    requires
        !(live_url_run(s, root, request.remote).1 matches Ok(live) && rerun(m, live, request)
            == Ok::<Resume, crate::error::ErrorView>(Resume::RepairPublished)),
    ensures
        first_change_is(
            s,
            healed_run(s, p, root, m, request, guide, nonce).0,
            opens_the_record(root),
        ),
{
    broadcast use lemma_asks_on;

    let last = healed_run(s, p, root, m, request, guide, nonce).0;
    lemma_values(
        s,
        config_of(root),
        crate::git::config::key_of("remote.", request.remote, ".url"),
    );
    let (s1, live) = live_url_run(s, root, request.remote);
    lemma_preflight(s1, root, m, request);
    let (s2, flight) = preflight_run(s1, root, m, request);
    if live is Err || rerun(m, live->Ok_0, request) is Err {
        assert(last == s1);
        lemma_only_asked(s, s1, opens_the_record(root));
    } else if flight is Err {
        assert(last == s2);
        lemma_only_asked(s, s2, opens_the_record(root));
    } else {
        let branch = flight->Ok_0;
        lemma_inspect(s2, root, request.url, branch, nonce);
        let (s3, notes) = inspect_run(s2, root, request.url, branch, nonce);
        if notes is Err {
            assert(last == s3);
            lemma_only_asked(s, s3, opens_the_record(root));
        } else {
            let present = live->Ok_0 is Some;
            lemma_mutate_records_first(
                s3,
                p,
                root,
                m,
                request,
                branch,
                notes->Ok_0,
                present,
                guide,
            );
            assert(last == mutate_run(
                s3,
                p,
                root,
                m,
                request,
                branch,
                notes->Ok_0,
                present,
                guide,
            ).0);
            lemma_asked_then_recorded(s, s3, last, opens_the_record(root));
        }
    }
}

/// Whether a reply to the question what a target has says that its HEAD is a branch.
pub open spec fn names_as_head(reply: crate::git::runner::Reply, branch: Seq<u8>) -> bool {
    match reply {
        Ok(out) => out.ok() && match advert_in(out.stdout) {
            Ok(advert) => advert.head_symref == Some(branch_ref_of(branch)),
            Err(_) => false,
        },
        Err(_) => false,
    }
}

/// Asking a target what it has.
pub open spec fn asks_target(url: Seq<u8>) -> InvocationView {
    invoke(
        args6(
            lit("ls-remote"),
            lit("--symref"),
            lit("--"),
            url,
            lit("HEAD"),
            lit("refs/heads/*"),
        ),
    )
}

/// Whether a target was asked between two states of a session and said that its HEAD is a branch.
pub open spec fn confirmed(a: Session, b: Session, url: Seq<u8>, branch: Seq<u8>) -> bool {
    exists|i: int|
        a.calls.len() <= i < b.calls.len() && #[trigger] b.calls[i] == asks_target(url)
            && names_as_head(answer_to(b, i), branch)
}

proof fn lemma_confirmed_on(
    a: Session,
    b: Session,
    c: Session,
    d: Session,
    url: Seq<u8>,
    branch: Seq<u8>,
)
    requires
        grown(a, b),
        confirmed(b, c, url, branch),
        grown(b, c),
        grown(c, d),
    ensures
        confirmed(a, d, url, branch),
{
    let i = choose|i: int|
        b.calls.len() <= i < c.calls.len() && #[trigger] c.calls[i] == asks_target(url)
            && names_as_head(answer_to(c, i), branch);
    assert(d.calls[i] == c.calls[i]);
    assert(d.calls.take(i + 1) =~= c.calls.take(i + 1));
}

proof fn lemma_confirming(
    s: Session,
    p: Option<ProviderSession>,
    m: MetadataView,
    request: RequestView,
    branch: Seq<u8>,
)
    ensures
        confirm_head_run(s, p, m, request, branch).2 matches Ok(true) ==> confirmed(
            s,
            confirm_head_run(s, p, m, request, branch).0,
            request.url,
            branch,
        ),
        grown(s, confirm_head_run(s, p, m, request, branch).0),
{
    let (s1, first) = server_head_run(s, request.url, branch);
    let (s2, p2, outcome) = confirm_head_run(s, p, m, request, branch);
    let n = s.calls.len() as int;
    assert(s1.calls[n] == asks_target(request.url));
    assert(s1.calls.take(n + 1) =~= s1.calls);
    assert(s2.calls.take(n + 1) =~= s1.calls);
    if first == Ok::<bool, crate::error::ErrorView>(true) {
        assert(s2.calls[n] == asks_target(request.url));
    } else if outcome == Ok::<bool, crate::error::ErrorView>(true) {
        assert(s2.calls[n + 1] == asks_target(request.url));
        assert(s2.calls.take(n + 2) =~= s2.calls);
    }
}

proof fn lemma_settled_is_confirmed(
    s: Session,
    p: Option<ProviderSession>,
    root: Seq<u8>,
    m: MetadataView,
    request: RequestView,
    branch: Seq<u8>,
    lines: Seq<Seq<char>>,
    diagnostics: Seq<Seq<char>>,
    guide: Option<Seq<u8>>,
)
    ensures
        ({
            let (last, _, outcome) = settle_run(
                s,
                p,
                root,
                m,
                request,
                branch,
                lines,
                diagnostics,
                guide,
            );
            outcome matches Ok(report) ==> report.class == ExitClass::Success ==> confirmed(
                s,
                last,
                request.url,
                branch,
            )
        }),
        ({
            let (last, _, outcome) = settle_repair_run(s, p, root, m, request, branch, lines);
            outcome matches Ok(report) ==> report.class == ExitClass::Success ==> confirmed(
                s,
                last,
                request.url,
                branch,
            )
        }),
{
    lemma_confirming(s, p, m, request, branch);
    let (s1, p1, head) = confirm_head_run(s, p, m, request, branch);
    if head == Ok::<bool, crate::error::ErrorView>(true) {
        lemma_point_head(s1, root, request.remote, branch);
        let s2 = point_head_run(s1, root, request.remote, branch).0;
        lemma_receipt(s2, root, PublishState::Published, receipt_for(request));
        let s3 = write_receipt_run(s2, root, PublishState::Published, receipt_for(request)).0;
        lemma_nothing_on(s1, s2, s3);
        reveal(pushes_nothing);
        lemma_confirmed_on(s, s, s1, s2, request.url, branch);
        lemma_confirmed_on(s, s, s1, s3, request.url, branch);
    }
}

proof fn lemma_repaired_is_confirmed(
    s: Session,
    p: Option<ProviderSession>,
    root: Seq<u8>,
    m: MetadataView,
    request: RequestView,
    branch: Seq<u8>,
)
    ensures
        ({
            let (last, _, outcome) = repair_run(s, p, root, m, request, branch);
            outcome matches Ok(report) ==> report.class == ExitClass::Success ==> confirmed(
                s,
                last,
                request.url,
                branch,
            )
        }),
{
    let (last, p1, outcome) = repair_run(s, p, root, m, request, branch);
    if outcome is Ok {
        lemma_fetch(s, root, args1(request.remote), 0);
        let s1 = fetch_from(s, root, args1(request.remote), 0).0;
        lemma_configure(s1, root, request, true);
        let s2 = configure_remote_run(s1, root, request, true).0;
        lemma_nothing_on(s, s1, s2);
        let refspecs = args1(wildcard_of(request.remote));
        lemma_upstreams(s2, bare_of(root), request.remote, refspecs);
        let s3 = upstreams_run(s2, bare_of(root), request.remote, refspecs).0;
        lemma_nothing_on(s, s2, s3);
        lemma_advance(s3, root, request, branch);
        let (s4, lines) = advance_run(s3, root, request, branch);
        lemma_plainly_on(s, s3, s4);
        lemma_verify_tracking(s4, root, request.remote, branch);
        let s5 = verify_tracking_run(s4, root, request.remote, branch).0;
        lemma_plainly_on(s, s4, s5);
        lemma_settled_is_confirmed(s5, p, root, m, request, branch, lines->Ok_0, seq![], None);
        assert((last, p1, outcome) == settle_repair_run(
            s5,
            p,
            root,
            m,
            request,
            branch,
            lines->Ok_0,
        ));
        assert(grown(s, s5)) by {
            reveal(pushes_plainly);
        }
        if outcome->Ok_0.class == ExitClass::Success {
            lemma_confirmed_earlier(s, s5, last, request.url, branch);
        }
    }
}

proof fn lemma_confirmed_earlier(
    a: Session,
    b: Session,
    c: Session,
    url: Seq<u8>,
    branch: Seq<u8>,
)
    requires
        grown(a, b),
        confirmed(b, c, url, branch),
    ensures
        confirmed(a, c, url, branch),
{
    let i = choose|i: int|
        b.calls.len() <= i < c.calls.len() && #[trigger] c.calls[i] == asks_target(url)
            && names_as_head(answer_to(c, i), branch);
    assert(c.calls[i] == asks_target(url));
}

proof fn lemma_published_is_confirmed(
    s: Session,
    p: Option<ProviderSession>,
    root: Seq<u8>,
    m: MetadataView,
    request: RequestView,
    branch: Seq<u8>,
    notes: Seq<Seq<char>>,
    present: bool,
    guide: Option<Seq<u8>>,
)
    ensures
        ({
            let (last, _, outcome) = mutate_run(
                s,
                p,
                root,
                m,
                request,
                branch,
                notes,
                present,
                guide,
            );
            outcome matches Ok(report) ==> report.class == ExitClass::Success ==> confirmed(
                s,
                last,
                request.url,
                branch,
            )
        }),
{
    let (last, p1, outcome) = mutate_run(
        s,
        p,
        root,
        m,
        request,
        branch,
        notes,
        present,
        guide,
    );
    if outcome is Ok {
        let receipt = receipt_for(request);
        lemma_receipt(s, root, PublishState::Publishing, receipt);
        let s1 = write_receipt_run(s, root, PublishState::Publishing, receipt).0;
        lemma_configure(s1, root, request, present);
        let s2 = configure_remote_run(s1, root, request, present).0;
        lemma_nothing_on(s, s1, s2);
        lemma_push(s2, root, request, branch);
        let (s3, found) = refspecs_run(s2, root, request, branch);
        let s4 = push_run(s3, root, request.remote, found->Ok_0).0;
        lemma_plainly_on(s, s2, s4);
        let refspecs = args1(wildcard_of(request.remote));
        lemma_upstreams(s4, bare_of(root), request.remote, refspecs);
        let s5 = upstreams_run(s4, bare_of(root), request.remote, refspecs).0;
        lemma_plainly_on(s, s4, s5);
        lemma_verify_tracking(s5, root, request.remote, branch);
        let s6 = verify_tracking_run(s5, root, request.remote, branch).0;
        lemma_plainly_on(s, s5, s6);
        let lines = push_lines(request, branch, found->Ok_0.len());
        lemma_settled_is_confirmed(s6, p, root, m, request, branch, lines, notes, guide);
        assert((last, p1, outcome) == settle_run(
            s6,
            p,
            root,
            m,
            request,
            branch,
            lines,
            notes,
            guide,
        ));
        assert(grown(s, s6)) by {
            reveal(pushes_plainly);
        }
        if outcome->Ok_0.class == ExitClass::Success {
            lemma_confirmed_earlier(s, s6, last, request.url, branch);
        }
    }
}

/// A publication reports success only where the target, asked anew, said that its HEAD is the
/// branch that was published: the recorded default branch, where one is recorded.
pub proof fn success_is_confirmed_by_the_target(
    s: Session,
    p: Option<ProviderSession>,
    root: Seq<u8>,
    m: MetadataView,
    request: RequestView,
    guide: Option<Seq<u8>>,
    nonce: Outcome<Seq<char>>,
)
    requires
        healed_run(s, p, root, m, request, guide, nonce).2 matches Ok(report) && report.class
            == ExitClass::Success,
    ensures
        exists|branch: Seq<u8>|
            #[trigger] confirmed(
                s,
                healed_run(s, p, root, m, request, guide, nonce).0,
                request.url,
                branch,
            ) && (m.default_branch is Some ==> m.default_branch == Some(branch)),
{
    let last = healed_run(s, p, root, m, request, guide, nonce).0;
    lemma_values(
        s,
        config_of(root),
        crate::git::config::key_of("remote.", request.remote, ".url"),
    );
    let (s1, live) = live_url_run(s, root, request.remote);
    lemma_preflight(s1, root, m, request);
    let (s2, flight) = preflight_run(s1, root, m, request);
    lemma_asks_on(s, s1, s2);
    let branch = flight->Ok_0;
    assert(m.default_branch is Some ==> m.default_branch == Some(branch));
    if rerun(m, live->Ok_0, request) == Ok::<Resume, crate::error::ErrorView>(
        Resume::RepairPublished,
    ) {
        lemma_repaired_is_confirmed(s2, p, root, m, request, branch);
        assert(grown(s, s2)) by {
            reveal(only_asks);
        }
        lemma_confirmed_earlier(s, s2, last, request.url, branch);
    } else {
        lemma_inspect(s2, root, request.url, branch, nonce);
        let (s3, notes) = inspect_run(s2, root, request.url, branch, nonce);
        lemma_asks_on(s, s2, s3);
        lemma_published_is_confirmed(
            s3,
            p,
            root,
            m,
            request,
            branch,
            notes->Ok_0,
            live->Ok_0 is Some,
            guide,
        );
        assert(grown(s, s3)) by {
            reveal(only_asks);
        }
        lemma_confirmed_earlier(s, s3, last, request.url, branch);
    }
}

/// A ref that was fetched to compare a target with the grove is deleted at the end of the
/// comparison, whatever that says, and the target passes only if its branch is an ancestor of the
/// grove's.
pub proof fn probes_are_deleted_and_only_ancestors_pass(
    s: Session,
    root: Seq<u8>,
    url: Seq<u8>,
    branch: Seq<u8>,
    nonce: Outcome<Seq<char>>,
)
    requires
        fetch_probe_run(s, root, url, branch, nonce).1 is Ok,
    ensures
        ({
            let (s1, name) = fetch_probe_run(s, root, url, branch, nonce);
            let (s2, verdict) = ancestry_run(s1, root, name->Ok_0, branch_ref_of(branch));
            let (s3, passed) = probe_run(s, root, url, branch, nonce);
            &&& s3.calls == s2.calls.push(
                crate::git::runner::invoke_in(
                    bare_of(root),
                    crate::git::runner::args4(
                        lit("update-ref"),
                        lit("-d"),
                        lit("--"),
                        name->Ok_0,
                    ),
                ),
            )
            &&& passed is Ok ==> verdict == Ok::<Ancestry, crate::error::ErrorView>(
                Ancestry::Ancestor,
            )
        }),
{
    let name = probe_name(nonce->Ok_0);
    assert(starts_with(name, lit(PROBE_PREFIX))) by {
        assert(name.subrange(0, lit(PROBE_PREFIX).len() as int) =~= lit(PROBE_PREFIX));
    }
}

} // verus!
