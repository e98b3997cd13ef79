//! Configuring the remote of a publication, pushing to it, and checking what came of it.
use vstd::prelude::*;
use crate::bytes::{
    bytes_of, contains_run, copied, has_run, joined, lemma_views_push, lit, prefixed, same, views,
    COLON, SLASH,
};
use crate::commands::publish::{
    conflict, conflict_error, slug_of, Preflight, PublishReport, ReportView, Request, RequestView,
};
use crate::error::{
    bytes_outcome, detailed, failure, failure_error, list_outcome, plain, ExitClass, GroveError,
    Result,
};
use crate::git::config::{
    config_key, config_values, config_values_run, destinations_checked, is_only, key_of,
    list_local_heads, local_heads_run, one_line_of, remote_head_branch, remote_head_run, required,
    required_step, set_config, set_config_run, trim_one_line, unset_all, unset_all_run,
    validate_refspec_destinations, Outcome,
};
use crate::git::fetch::{fetch_from, FetchPlan};
use crate::git::provider::{provider_step, Provider, ProviderRunner, ProviderSession};
use crate::git::query::{branch_ref_of, opt_outcome};
use crate::git::remote::{advertise, advertise_run};
use crate::git::runner::{
    args1, args4, args5, invoke_in, step, GitRunner, Invocation, InvocationView, OutputView,
    Session,
};
use crate::grove::discover::{bare_of, config_of, Grove};
use crate::grove::metadata::{
    creating_in, creating_receipt, Metadata, MetadataView, Receipt, ReceiptView,
};
use crate::path::{child, join_word};
use crate::text::{
    decimal, escape, escaped, join, joined_text, lemma_texts_push, lossy, lossy_text, opt_text,
    status_number, text, texts,
};

verus! {

broadcast use {lemma_views_push, lemma_texts_push};

// --------------------------------------------------------- local configuration

/// The one fetch refspec that a published grove carries.
pub open spec fn wildcard_of(remote: Seq<u8>) -> Seq<u8> {
    lit("+refs/heads/*:refs/remotes/") + remote + lit("/*")
}

pub fn wildcard_refspec(remote: &[u8]) -> (r: Vec<u8>)
    ensures
        r@ == wildcard_of(remote@),
{
    joined(prefixed("+refs/heads/*:refs/remotes/", remote).as_slice(), "/*".as_bytes())
}

/// Writing a key unless it already has exactly one given value, and reading it back.
pub open spec fn set_and_verify_run(s: Session, config: Seq<u8>, key: Seq<u8>, value: Seq<u8>) -> (
    Session,
    Outcome<()>,
) {
    match config_values_run(s, config, key) {
        (s1, Err(e)) => (s1, Err(e)),
        (s1, Ok(now)) => if now == args1(value) {
            (s1, Ok(()))
        } else {
            match set_config_run(s1, config, key, value, false) {
                (s2, Err(e)) => (s2, Err(e)),
                (s2, Ok(_)) => match config_values_run(s2, config, key) {
                    (s3, Err(e)) => (s3, Err(e)),
                    (s3, Ok(then)) => if then == args1(value) {
                        (s3, Ok(()))
                    } else {
                        (s3, Err(failure(escape(key) + " verification failed"@)))
                    },
                },
            }
        },
    }
}

/// Gives a key one value, and reads it back.
pub fn set_and_verify<R: GitRunner + ?Sized>(
    runner: &mut R,
    config: &[u8],
    key: &[u8],
    value: &[u8],
) -> (r: Result<()>)
    ensures
        (final(runner).session(), plain(r)) == set_and_verify_run(
            old(runner).session(),
            config@,
            key@,
            value@,
        ),
{
    let now = config_values(runner, config, key)?;
    if !is_only(&now, value) {
        set_config(runner, config, key, value, false)?;
        let written = config_values(runner, config, key)?;
        if !is_only(&written, value) {
            return Err(
                GroveError::failure(escaped(key).concat(" verification failed")),
            );
        }
    }
    Ok(())
}

pub open spec fn escaped_list(values: Seq<Seq<u8>>) -> Seq<Seq<char>> {
    values.map_values(|v: Seq<u8>| escape(v))
}

pub(crate) fn escape_all(values: &Vec<Vec<u8>>) -> (r: Vec<String>)
    ensures
        texts(r@) == escaped_list(views(values@)),
{
    let ghost all = escaped_list(views(values@));
    let mut out: Vec<String> = Vec::new();
    let mut i: usize = 0;
    proof {
        assert(texts(out@) =~= all.subrange(0, 0));
    }
    while i < values.len()
        invariant
            i <= values.len(),
            all == escaped_list(views(values@)),
            texts(out@) == all.subrange(0, i as int),
        decreases values.len() - i,
    {
        out.push(escaped(values[i].as_slice()));
        proof {
            assert(all[i as int] == escape(values@[i as int]@));
            assert(all.subrange(0, i + 1) =~= all.subrange(0, i as int).push(all[i as int]));
        }
        i = i + 1;
    }
    proof {
        assert(all.subrange(0, i as int) =~= all);
    }
    out
}

/// Adding the remote, unless it is there.
pub open spec fn add_remote_run(s: Session, root: Seq<u8>, request: RequestView, present: bool) -> (
    Session,
    Outcome<()>,
) {
    if present {
        (s, Ok(()))
    } else {
        match required_step(
            s,
            invoke_in(
                bare_of(root),
                args5(lit("remote"), lit("add"), lit("--"), request.remote, request.url),
            ),
            "remote add"@,
        ) {
            (s1, Err(e)) => (s1, Err(e)),
            (s1, Ok(_)) => (s1, Ok(())),
        }
    }
}

/// Checking that the remote has exactly the requested URL.
pub open spec fn url_check_run(s: Session, root: Seq<u8>, request: RequestView) -> (
    Session,
    Outcome<()>,
) {
    match config_values_run(s, config_of(root), key_of("remote.", request.remote, ".url")) {
        (s1, Err(e)) => (s1, Err(e)),
        (s1, Ok(urls)) => if urls == args1(request.url) {
            (s1, Ok(()))
        } else {
            (
                s1,
                Err(
                    detailed(
                        failure(
                            "the configured URL for remote "@ + escape(request.remote)
                                + " is not the one requested"@,
                        ),
                        "expected "@ + escape(request.url) + ", found "@ + joined_text(
                            escaped_list(urls),
                            ", "@,
                        ),
                    ),
                ),
            )
        },
    }
}

/// Making sure that the remote has exactly the wildcard fetch refspec, rewriting it if need be.
pub open spec fn refspec_run(s: Session, root: Seq<u8>, remote: Seq<u8>) -> (
    Session,
    Outcome<Seq<Seq<u8>>>,
) {
    let config = config_of(root);
    let key = key_of("remote.", remote, ".fetch");
    let want = wildcard_of(remote);
    match config_values_run(s, config, key) {
        (s1, Err(e)) => (s1, Err(e)),
        (s1, Ok(now)) => if now == args1(want) {
            (s1, Ok(now))
        } else {
            match unset_all_run(s1, config, key) {
                (s2, Err(e)) => (s2, Err(e)),
                (s2, Ok(_)) => match set_config_run(s2, config, key, want, true) {
                    (s3, Err(e)) => (s3, Err(e)),
                    (s3, Ok(_)) => match config_values_run(s3, config, key) {
                        (s4, Err(e)) => (s4, Err(e)),
                        (s4, Ok(then)) => if then == args1(want) {
                            (s4, Ok(then))
                        } else {
                            (s4, Err(failure("fetch refspec verification failed"@)))
                        },
                    },
                },
            }
        },
    }
}

/// Configuring the remote, with every write read back.
pub open spec fn configure_remote_run(
    s: Session,
    root: Seq<u8>,
    request: RequestView,
    present: bool,
) -> (Session, Outcome<()>) {
    match add_remote_run(s, root, request, present) {
        (s1, Err(e)) => (s1, Err(e)),
        (s1, Ok(_)) => match url_check_run(s1, root, request) {
            (s2, Err(e)) => (s2, Err(e)),
            (s2, Ok(_)) => match refspec_run(s2, root, request.remote) {
                (s3, Err(e)) => (s3, Err(e)),
                (s3, Ok(refspecs)) => match destinations_checked(refspecs, request.remote) {
                    Err(e) => (s3, Err(e)),
                    Ok(_) => match set_and_verify_run(
                        s3,
                        config_of(root),
                        lit("worktree.guessRemote"),
                        lit("true"),
                    ) {
                        (s4, Err(e)) => (s4, Err(e)),
                        (s4, Ok(_)) => set_and_verify_run(
                            s4,
                            config_of(root),
                            lit("grove.remote"),
                            request.remote,
                        ),
                    },
                },
            },
        },
    }
}

/// Configures the remote locally. Every step can be repeated.
pub fn configure_local_remote<R: GitRunner + ?Sized>(
    runner: &mut R,
    grove: &Grove,
    request: &Request,
    remote_already_configured: bool,
) -> (r: Result<()>)
    ensures
        (final(runner).session(), plain(r)) == configure_remote_run(
            old(runner).session(),
            grove.root@,
            request@,
            remote_already_configured,
        ),
{
    let bare = grove.bare_dir();
    let config = grove.config_path();
    let remote = request.remote.as_slice();
    if !remote_already_configured {
        required(
            runner,
            Invocation::new().git_dir(bare.as_slice()).word("remote").word("add").word("--").arg(
                remote,
            ).arg(request.url.as_slice()),
            "remote add",
        )?;
    }
    let url_key = config_key("remote.", remote, ".url");
    let urls = config_values(runner, config.as_slice(), url_key.as_slice())?;
    if !is_only(&urls, request.url.as_slice()) {
        return Err(
            GroveError::failure(
                text("the configured URL for remote ").concat(escaped(remote).as_str()).concat(
                    " is not the one requested",
                ),
            ).with_detail(
                text("expected ").concat(escaped(request.url.as_slice()).as_str()).concat(
                    ", found ",
                ).concat(join(&escape_all(&urls), ", ").as_str()),
            ),
        );
    }
    let fetch_key = config_key("remote.", remote, ".fetch");
    let want = wildcard_refspec(remote);
    let mut refspecs = config_values(runner, config.as_slice(), fetch_key.as_slice())?;
    if !is_only(&refspecs, want.as_slice()) {
        unset_all(runner, config.as_slice(), fetch_key.as_slice())?;
        set_config(runner, config.as_slice(), fetch_key.as_slice(), want.as_slice(), true)?;
        refspecs = config_values(runner, config.as_slice(), fetch_key.as_slice())?;
        if !is_only(&refspecs, want.as_slice()) {
            return Err(failure_error("fetch refspec verification failed"));
        }
    }
    validate_refspec_destinations(&refspecs, remote)?;
    set_and_verify(
        runner,
        config.as_slice(),
        "worktree.guessRemote".as_bytes(),
        "true".as_bytes(),
    )?;
    set_and_verify(runner, config.as_slice(), "grove.remote".as_bytes(), remote)
}

pub open spec fn live_url_run(s: Session, root: Seq<u8>, remote: Seq<u8>) -> (
    Session,
    Outcome<Option<Seq<u8>>>,
) {
    match config_values_run(s, config_of(root), key_of("remote.", remote, ".url")) {
        (s1, Err(e)) => (s1, Err(e)),
        (s1, Ok(values)) => if values.len() == 0 {
            (s1, Ok(None))
        } else if values.len() == 1 {
            (s1, Ok(Some(values[0])))
        } else {
            (
                s1,
                Err(
                    conflict_error(
                        "remote "@ + escape(remote) + " has more than one configured URL"@,
                        "leave exactly one remote.<name>.url before publishing"@,
                    ),
                ),
            )
        },
    }
}

/// What a remote points at now, if it is configured.
pub fn live_remote_url<R: GitRunner + ?Sized>(runner: &mut R, grove: &Grove, remote: &[u8]) -> (r:
    Result<Option<Vec<u8>>>)
    ensures
        (final(runner).session(), opt_outcome(r)) == live_url_run(
            old(runner).session(),
            grove.root@,
            remote@,
        ),
{
    let key = config_key("remote.", remote, ".url");
    let values = config_values(runner, grove.config_path().as_slice(), key.as_slice())?;
    proof {
        assert(views(values@).len() == values@.len());
    }
    if values.len() == 0 {
        Ok(None)
    } else if values.len() == 1 {
        proof {
            assert(views(values@)[0] == values@[0]@);
        }
        Ok(Some(copied(values[0].as_slice())))
    } else {
        Err(
            conflict(
                text("remote ").concat(escaped(remote).as_str()).concat(
                    " has more than one configured URL",
                ),
                text("leave exactly one remote.<name>.url before publishing"),
            ),
        )
    }
}

// ---------------------------------------------------------------------- pushing

pub open spec fn tracking_of(remote: Seq<u8>, branch: Seq<u8>) -> Seq<u8> {
    (lit("refs/remotes/") + remote).push(SLASH) + branch
}

/// `refs/remotes/<remote>/<branch>`.
pub fn tracking_ref(remote: &[u8], branch: &[u8]) -> (r: Vec<u8>)
    ensures
        r@ == tracking_of(remote@, branch@),
{
    let mut namespace = prefixed("refs/remotes/", remote);
    namespace.push(SLASH);
    joined(namespace.as_slice(), branch)
}

/// A ref pushed to the same name, not forced.
pub open spec fn plain_refspec(source: Seq<u8>) -> Seq<u8> {
    source.push(COLON) + source
}

pub open spec fn plain_refspecs(sources: Seq<Seq<u8>>) -> Seq<Seq<u8>> {
    sources.map_values(|s: Seq<u8>| plain_refspec(s))
}

pub open spec fn refspecs_run(s: Session, root: Seq<u8>, request: RequestView, branch: Seq<u8>) -> (
    Session,
    Outcome<Seq<Seq<u8>>>,
) {
    if request.all_branches {
        match local_heads_run(s, bare_of(root)) {
            (s1, Err(e)) => (s1, Err(e)),
            (s1, Ok(heads)) => (s1, Ok(plain_refspecs(heads))),
        }
    } else {
        (s, Ok(plain_refspecs(args1(branch_ref_of(branch)))))
    }
}

fn refspecs_of(sources: &Vec<Vec<u8>>) -> (r: Vec<Vec<u8>>)
    ensures
        views(r@) == plain_refspecs(views(sources@)),
{
    let ghost all = plain_refspecs(views(sources@));
    let mut out: Vec<Vec<u8>> = Vec::new();
    let mut i: usize = 0;
    proof {
        assert(views(out@) =~= all.subrange(0, 0));
    }
    while i < sources.len()
        invariant
            i <= sources.len(),
            all == plain_refspecs(views(sources@)),
            views(out@) == all.subrange(0, i as int),
        decreases sources.len() - i,
    {
        let mut source = copied(sources[i].as_slice());
        source.push(COLON);
        out.push(joined(source.as_slice(), sources[i].as_slice()));
        proof {
            assert(all[i as int] == plain_refspec(sources@[i as int]@));
            assert(all.subrange(0, i + 1) =~= all.subrange(0, i as int).push(all[i as int]));
        }
        i = i + 1;
    }
    proof {
        assert(all.subrange(0, i as int) =~= all);
    }
    out
}

/// What is pushed: the default branch alone, or every local branch in Git's order.
pub fn push_refspecs<R: GitRunner + ?Sized>(
    runner: &mut R,
    grove: &Grove,
    request: &Request,
    flight: &Preflight,
) -> (r: Result<Vec<Vec<u8>>>)
    ensures
        (final(runner).session(), list_outcome(r)) == refspecs_run(
            old(runner).session(),
            grove.root@,
            request@,
            flight.default_branch@,
        ),
{
    let sources = if request.all_branches {
        list_local_heads(runner, grove.bare_dir().as_slice())?
    } else {
        let mut only: Vec<Vec<u8>> = Vec::new();
        proof {
            assert(views(only@) =~= Seq::empty());
        }
        only.push(flight.default_ref());
        only
    };
    Ok(refspecs_of(&sources))
}

pub const ATOMIC_UNSUPPORTED: &'static str = "the receiving end does not support --atomic push";

/// The push: atomic, never forced, with its locale pinned so that its diagnostics can be told
/// apart.
pub open spec fn push_call(root: Seq<u8>, remote: Seq<u8>, refspecs: Seq<Seq<u8>>) -> InvocationView {
    InvocationView {
        c_locale: true,
        ..invoke_in(
            bare_of(root),
            args4(lit("push"), lit("--atomic"), lit("--"), remote) + refspecs,
        )
    }
}

pub open spec fn push_verdict(out: OutputView) -> Outcome<()> {
    if out.ok() {
        Ok(())
    } else if has_run(out.stderr, lit(ATOMIC_UNSUPPORTED)) {
        Err(
            conflict_error(
                "the publication target does not support atomic push"@,
                "nothing was published; git refused before sending any ref update"@,
            ),
        )
    } else {
        Err(detailed(failure("cannot push to the publication target"@), escape(out.stderr)))
    }
}

pub open spec fn push_run(s: Session, root: Seq<u8>, remote: Seq<u8>, refspecs: Seq<Seq<u8>>) -> (
    Session,
    Outcome<()>,
) {
    match step(s, push_call(root, remote, refspecs)) {
        (s1, Err(e)) => (s1, Err(e)),
        (s1, Ok(out)) => (s1, push_verdict(out)),
    }
}

/// Pushes once, atomically and without force.
pub fn push<R: GitRunner + ?Sized>(
    runner: &mut R,
    grove: &Grove,
    request: &Request,
    refspecs: &Vec<Vec<u8>>,
) -> (r: Result<()>)
    ensures
        (final(runner).session(), plain(r)) == push_run(
            old(runner).session(),
            grove.root@,
            request.remote@,
            views(refspecs@),
        ),
{
    let output = runner.run_classified(
        Invocation::new().git_dir(grove.bare_dir().as_slice()).word("push").word("--atomic").word(
            "--",
        ).arg(request.remote.as_slice()).arg_list(refspecs),
    )?;
    if output.ok() {
        return Ok(());
    }
    if contains_run(output.stderr.as_slice(), ATOMIC_UNSUPPORTED.as_bytes()) {
        return Err(
            conflict(
                text("the publication target does not support atomic push"),
                text("nothing was published; git refused before sending any ref update"),
            ),
        );
    }
    Err(
        failure_error("cannot push to the publication target").with_detail(
            escaped(output.stderr.as_slice()),
        ),
    )
}

// ------------------------------------------------------------------ verification

pub open spec fn ref_exists_run(s: Session, root: Seq<u8>, reference: Seq<u8>) -> (
    Session,
    Outcome<bool>,
) {
    match step(
        s,
        invoke_in(
            bare_of(root),
            args5(lit("show-ref"), lit("--verify"), lit("--quiet"), lit("--"), reference),
        ),
    ) {
        (s1, Err(e)) => (s1, Err(e)),
        (s1, Ok(out)) => if out.status == 0 {
            (s1, Ok(true))
        } else if out.status == 1 {
            (s1, Ok(false))
        } else {
            (
                s1,
                Err(
                    detailed(
                        failure(
                            "git show-ref failed with exit status "@ + decimal(out.status)
                                + " while verifying "@ + escape(reference),
                        ),
                        escape(out.stderr),
                    ),
                ),
            )
        },
    }
}

/// Whether a ref exists.
pub fn ref_exists<R: GitRunner + ?Sized>(runner: &mut R, grove: &Grove, reference: &[u8]) -> (r:
    Result<bool>)
    ensures
        (final(runner).session(), plain(r)) == ref_exists_run(
            old(runner).session(),
            grove.root@,
            reference@,
        ),
{
    let output = runner.run(
        Invocation::new().git_dir(grove.bare_dir().as_slice()).word("show-ref").word(
            "--verify",
        ).word("--quiet").word("--").arg(reference),
    )?;
    if output.status == 0 {
        Ok(true)
    } else if output.status == 1 {
        Ok(false)
    } else {
        Err(
            GroveError::failure(
                text("git show-ref failed with exit status ").concat(
                    status_number(output.status).as_str(),
                ).concat(" while verifying ").concat(escaped(reference).as_str()),
            ).with_detail(escaped(output.stderr.as_slice())),
        )
    }
}

pub open spec fn resolve_run(s: Session, root: Seq<u8>, reference: Seq<u8>) -> (
    Session,
    Outcome<Seq<u8>>,
) {
    match required_step(
        s,
        invoke_in(
            bare_of(root),
            args4(
                lit("rev-parse"),
                lit("--verify"),
                lit("--end-of-options"),
                reference + lit("^{commit}"),
            ),
        ),
        "rev-parse"@,
    ) {
        (s1, Err(e)) => (s1, Err(e)),
        (s1, Ok(out)) => (s1, one_line_of(out.stdout, "object ID"@)),
    }
}

/// The commit that a ref resolves to.
pub fn resolve<R: GitRunner + ?Sized>(runner: &mut R, grove: &Grove, reference: &[u8]) -> (r: Result<
    Vec<u8>,
>)
    ensures
        (final(runner).session(), bytes_outcome(r)) == resolve_run(
            old(runner).session(),
            grove.root@,
            reference@,
        ),
{
    let revision = joined(reference, "^{commit}".as_bytes());
    let output = required(
        runner,
        Invocation::new().git_dir(grove.bare_dir().as_slice()).word("rev-parse").word(
            "--verify",
        ).word("--end-of-options").arg(revision.as_slice()),
        "rev-parse",
    )?;
    trim_one_line(output.stdout, "object ID")
}

/// Checking that the push made the tracking ref, fetching only where it did not.
pub open spec fn verify_tracking_run(s: Session, root: Seq<u8>, remote: Seq<u8>, branch: Seq<u8>) -> (
    Session,
    Outcome<()>,
) {
    let tracking = tracking_of(remote, branch);
    match ref_exists_run(s, root, tracking) {
        (s1, Err(e)) => (s1, Err(e)),
        (s1, Ok(true)) => (s1, Ok(())),
        (s1, Ok(false)) => match fetch_from(s1, root, args1(remote), 0) {
            (s2, Err(e)) => (s2, Err(e)),
            (s2, Ok(_)) => match ref_exists_run(s2, root, tracking) {
                (s3, Err(e)) => (s3, Err(e)),
                (s3, Ok(true)) => (s3, Ok(())),
                (s3, Ok(false)) => (
                    s3,
                    Err(failure("the push did not create "@ + escape(tracking))),
                ),
            },
        },
    }
}

/// A plan to fetch one remote.
pub(crate) fn only_remote(remote: &[u8]) -> (r: FetchPlan)
    ensures
        views(r.remotes@) == args1(remote@),
{
    let mut remotes: Vec<Vec<u8>> = Vec::new();
    proof {
        assert(views(remotes@) =~= Seq::empty());
    }
    remotes.push(copied(remote));
    FetchPlan { remotes }
}

/// Checks that the push made the tracking ref.
pub fn verify_tracking_ref<R: GitRunner + ?Sized>(
    runner: &mut R,
    grove: &Grove,
    request: &Request,
    flight: &Preflight,
) -> (r: Result<()>)
    ensures
        (final(runner).session(), plain(r)) == verify_tracking_run(
            old(runner).session(),
            grove.root@,
            request.remote@,
            flight.default_branch@,
        ),
{
    let tracking = tracking_ref(request.remote.as_slice(), flight.default_branch.as_slice());
    if ref_exists(runner, grove, tracking.as_slice())? {
        return Ok(());
    }
    only_remote(request.remote.as_slice()).execute(runner, grove)?;
    if !ref_exists(runner, grove, tracking.as_slice())? {
        return Err(
            GroveError::failure(
                text("the push did not create ").concat(escaped(tracking.as_slice()).as_str()),
            ),
        );
    }
    Ok(())
}

/// Pointing the local remote HEAD at the remote's default branch, and reading it back.
pub open spec fn point_head_run(s: Session, root: Seq<u8>, remote: Seq<u8>, branch: Seq<u8>) -> (
    Session,
    Outcome<()>,
) {
    match required_step(
        s,
        invoke_in(
            bare_of(root),
            args5(lit("remote"), lit("set-head"), lit("--auto"), lit("--"), remote),
        ),
        "remote set-head --auto"@,
    ) {
        (s1, Err(e)) => (s1, Err(e)),
        (s1, Ok(_)) => match remote_head_run(s1, bare_of(root), remote) {
            (s2, Err(e)) => (s2, Err(e)),
            (s2, Ok(written)) => if written == branch {
                (s2, Ok(()))
            } else {
                (
                    s2,
                    Err(
                        failure(
                            "the remote HEAD was set to "@ + escape(written) + " rather than "@
                                + escape(branch),
                        ),
                    ),
                )
            },
        },
    }
}

/// Points the local remote HEAD at the remote's default branch.
pub fn point_remote_head<R: GitRunner + ?Sized>(
    runner: &mut R,
    grove: &Grove,
    request: &Request,
    flight: &Preflight,
) -> (r: Result<()>)
    ensures
        (final(runner).session(), plain(r)) == point_head_run(
            old(runner).session(),
            grove.root@,
            request.remote@,
            flight.default_branch@,
        ),
{
    let bare = grove.bare_dir();
    required(
        runner,
        Invocation::new().git_dir(bare.as_slice()).word("remote").word("set-head").word(
            "--auto",
        ).word("--").arg(request.remote.as_slice()),
        "remote set-head --auto",
    )?;
    let written = remote_head_branch(runner, bare.as_slice(), request.remote.as_slice())?;
    if !same(written.as_slice(), flight.default_branch.as_slice()) {
        return Err(
            GroveError::failure(
                text("the remote HEAD was set to ").concat(
                    escaped(written.as_slice()).as_str(),
                ).concat(" rather than ").concat(
                    escaped(flight.default_branch.as_slice()).as_str(),
                ),
            ),
        );
    }
    Ok(())
}

pub open spec fn server_head_run(s: Session, url: Seq<u8>, branch: Seq<u8>) -> (
    Session,
    Outcome<bool>,
) {
    match advertise_run(s, url) {
        (s1, Err(e)) => (s1, Err(e)),
        (s1, Ok(advert)) => (s1, Ok(advert.head_symref == Some(branch_ref_of(branch)))),
    }
}

/// Whether the hosting side's HEAD names the grove's default branch.
pub fn server_head_matches<R: GitRunner + ?Sized>(
    runner: &mut R,
    request: &Request,
    flight: &Preflight,
) -> (r: Result<bool>)
    ensures
        (final(runner).session(), plain(r)) == server_head_run(
            old(runner).session(),
            request.url@,
            flight.default_branch@,
        ),
{
    let advert = advertise(runner, request.url.as_slice())?;
    match &advert.head_symref {
        None => Ok(false),
        Some(symref) => Ok(same(symref.as_slice(), flight.default_ref().as_slice())),
    }
}

// ---------------------------------------------------------------------- reports

/// The sentence that the guide of an unpublished grove carries.
pub const UNPUBLISHED_GUIDE_SENTENCE: &'static str =
    "This grove is **not published**: it has no upstream branch.";

/// What there is to say about a guide that publishing made false.
pub open spec fn stale_guide(root: Seq<u8>, contents: Option<Seq<u8>>) -> Option<Seq<char>> {
    match contents {
        None => None,
        Some(c) => if has_run(c, lit(UNPUBLISHED_GUIDE_SENTENCE)) {
            Some(
                lossy_text(child(root, lit("AGENTS.md"))) + " still says `"@
                    + UNPUBLISHED_GUIDE_SENTENCE@ + "`; publish does not rewrite it"@,
            )
        } else {
            None
        },
    }
}

/// Tells that the guide still calls the grove unpublished. `contents` is what `AGENTS.md` in the
/// grove's root holds, when it can be read.
pub fn stale_guide_line(grove: &Grove, contents: Option<&[u8]>) -> (r: Option<String>)
    ensures
        opt_text(r) == stale_guide(grove.root@, crate::bytes::opt_slice(contents)),
{
    match contents {
        None => None,
        Some(c) => {
            if contains_run(c, UNPUBLISHED_GUIDE_SENTENCE.as_bytes()) {
                let guide = join_word(grove.root.as_slice(), "AGENTS.md");
                Some(
                    lossy(guide.as_slice()).concat(" still says `").concat(
                        UNPUBLISHED_GUIDE_SENTENCE,
                    ).concat("`; publish does not rewrite it"),
                )
            } else {
                None
            }
        },
    }
}

pub open spec fn receipt_for(request: RequestView) -> ReceiptView {
    ReceiptView { remote: request.remote, url: request.url }
}

/// The receipt of a request.
pub fn published_receipt(request: &Request) -> (r: Receipt)
    ensures
        r@ == receipt_for(request@),
{
    Receipt {
        remote: copied(request.remote.as_slice()),
        url: copied(request.url.as_slice()),
    }
}

/// The report of a run that pushed but could not confirm the hosting side's default branch.
pub open spec fn unconfirmed_report(
    request: RequestView,
    branch: Seq<u8>,
    lines: Seq<Seq<char>>,
    diagnostics: Seq<Seq<char>>,
) -> ReportView {
    ReportView {
        class: ExitClass::NeedsDecision,
        lines,
        diagnostics: diagnostics.push(
            "the hosting side's default branch is not "@ + escape(branch)
                + "; set it by hand, then run `git grove publish "@ + escape(request.url)
                + "` again"@,
        ),
    }
}

pub(crate) fn unconfirmed_head_report(
    request: &Request,
    flight: &Preflight,
    lines: Vec<String>,
    diagnostics: Vec<String>,
) -> (r: PublishReport)
    ensures
        r@ == unconfirmed_report(
            request@,
            flight.default_branch@,
            texts(lines@),
            texts(diagnostics@),
        ),
{
    let mut diagnostics = diagnostics;
    diagnostics.push(
        text("the hosting side's default branch is not ").concat(
            escaped(flight.default_branch.as_slice()).as_str(),
        ).concat("; set it by hand, then run `git grove publish ").concat(
            escaped(request.url.as_slice()).as_str(),
        ).concat("` again"),
    );
    PublishReport { class: ExitClass::NeedsDecision, lines, diagnostics }
}

// -------------------------------------------------------------- provider repair

/// `<owner>/<name>`.
pub open spec fn target_of(owner: Seq<u8>, name: Seq<u8>) -> Seq<u8> {
    owner + lit("/") + name
}

/// Setting the default branch of a repository this grove itself created on GitHub. Whether that
/// worked is not looked at: the hosting side is asked again anyway.
pub open spec fn gh_repair(
    p: Option<ProviderSession>,
    m: MetadataView,
    request: RequestView,
    branch: Seq<u8>,
) -> (Option<ProviderSession>, Outcome<()>) {
    match p {
        None => (p, Ok(())),
        Some(ps) => match creating_in(m) {
            Err(e) => (p, Err(e)),
            Ok(None) => (p, Ok(())),
            Ok(Some(c)) => if c.provider != slug_of(Provider::GitHub) || c.remote
                != request.remote {
                (p, Ok(()))
            } else {
                (
                    Some(
                        provider_step(
                            ps,
                            Provider::GitHub,
                            args5(
                                lit("repo"),
                                lit("edit"),
                                target_of(c.owner, c.name),
                                lit("--default-branch"),
                                branch,
                            ),
                        ).0,
                    ),
                    Ok(()),
                )
            },
        },
    }
}

pub open spec fn when_enabled(enabled: bool, p: ProviderSession) -> Option<ProviderSession> {
    if enabled {
        Some(p)
    } else {
        None
    }
}

/// Sets the default branch of a repository this grove itself created on GitHub.
pub fn attempt_gh_default_branch_repair<P: ProviderRunner + ?Sized>(
    provider: &mut P,
    enabled: bool,
    metadata: &Metadata,
    request: &Request,
    flight: &Preflight,
) -> (r: Result<()>)
    ensures
        (when_enabled(enabled, final(provider).session()), plain(r)) == gh_repair(
            when_enabled(enabled, old(provider).session()),
            metadata@,
            request@,
            flight.default_branch@,
        ),
        !enabled ==> final(provider).session() == old(provider).session(),
{
    if !enabled {
        return Ok(());
    }
    let creating = match creating_receipt(metadata)? {
        None => return Ok(()),
        Some(creating) => creating,
    };
    if !same(creating.provider.as_slice(), "github".as_bytes()) || !same(
        creating.remote.as_slice(),
        request.remote.as_slice(),
    ) {
        return Ok(());
    }
    let slashed = joined(creating.owner.as_slice(), "/".as_bytes());
    let mut args: Vec<Vec<u8>> = Vec::new();
    proof {
        assert(views(args@) =~= Seq::empty());
    }
    args.push(bytes_of("repo"));
    args.push(bytes_of("edit"));
    args.push(joined(slashed.as_slice(), creating.name.as_slice()));
    args.push(bytes_of("--default-branch"));
    args.push(copied(flight.default_branch.as_slice()));
    let _ = provider.run(Provider::GitHub, args);
    Ok(())
}

} // verus!
