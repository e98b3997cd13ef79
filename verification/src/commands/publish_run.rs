//! The publication transaction.
use vstd::prelude::*;
use crate::bytes::{copied, lemma_views_push, opt_slice, same, views};
use crate::commands::publish::{
    accept_rerun, conflict, conflict_error, inspect_run, inspect_target, notes_outcome, preflight,
    preflight_run, report_outcome, rerun, Preflight, PublishReport, ReportView, Request,
    RequestView, Resume,
};
use crate::commands::publish_push::{
    attempt_gh_default_branch_repair, configure_local_remote, configure_remote_run, gh_repair,
    live_remote_url, live_url_run, only_remote, point_head_run, point_remote_head, published_receipt,
    push, push_refspecs, push_run, receipt_for, refspecs_run, resolve, resolve_run,
    server_head_matches, server_head_run, stale_guide, stale_guide_line, tracking_of, tracking_ref,
    unconfirmed_head_report, unconfirmed_report, verify_tracking_ref, verify_tracking_run,
    when_enabled, wildcard_of, wildcard_refspec,
};
use crate::error::{failure, ErrorView, ExitClass, GroveError, Result};
use crate::fsx::nonce::{possible_nonce, some_nonce, some_nonce_is_possible};
use crate::git::config::{configure_upstreams, upstreams_run, Outcome};
use crate::git::fetch::fetch_from;
use crate::git::provider::{ProviderRunner, ProviderSession, RecordingFake};
use crate::git::query::branch_ref_of;
use crate::git::remote::{ancestry_run, is_ancestor, Ancestry};
use crate::git::runner::{args1, GitRunner, Session};
use crate::grove::discover::{bare_of, Grove};
use crate::grove::metadata::{
    creating_in, creating_receipt, metadata_outcome, read, read_run, rollback_creating_receipt,
    rollback_run, write_receipt, write_receipt_run, Metadata, MetadataView, PublishState,
};
use crate::text::{
    decimal_nat, escape, escaped, lemma_texts_push, number, text, texts,
};

verus! {

broadcast use {lemma_views_push, lemma_texts_push};

/// What a step of a publication leaves behind: the Git session, the provider session where there
/// is a provider, and the outcome.
pub type Course<T> = (Session, Option<ProviderSession>, Outcome<T>);

// -------------------------------------------------------- asking the hosting side

/// Asking the hosting side for its HEAD, repairing it where that is possible, and asking again.
pub open spec fn confirm_head_run(
    s: Session,
    p: Option<ProviderSession>,
    m: MetadataView,
    request: RequestView,
    branch: Seq<u8>,
) -> Course<bool> {
    match server_head_run(s, request.url, branch) {
        (s1, Err(e)) => (s1, p, Err(e)),
        (s1, Ok(true)) => (s1, p, Ok(true)),
        (s1, Ok(false)) => match gh_repair(p, m, request, branch) {
            (p1, Err(e)) => (s1, p1, Err(e)),
            (p1, Ok(_)) => {
                let (s2, r) = server_head_run(s1, request.url, branch);
                (s2, p1, r)
            },
        },
    }
}

fn confirm_head<R: GitRunner + ?Sized, P: ProviderRunner + ?Sized>(
    runner: &mut R,
    provider: &mut P,
    enabled: bool,
    metadata: &Metadata,
    request: &Request,
    flight: &Preflight,
) -> (r: Result<bool>)
    ensures
        (
            final(runner).session(),
            when_enabled(enabled, final(provider).session()),
            crate::error::plain(r),
        ) == confirm_head_run(
            old(runner).session(),
            when_enabled(enabled, old(provider).session()),
            metadata@,
            request@,
            flight.default_branch@,
        ),
        !enabled ==> final(provider).session() == old(provider).session(),
{
    if server_head_matches(runner, request, flight)? {
        return Ok(true);
    }
    attempt_gh_default_branch_repair(provider, enabled, metadata, request, flight)?;
    server_head_matches(runner, request, flight)
}

// --------------------------------------------------------------- a first publication

pub open spec fn published_line(request: RequestView, branch: Seq<u8>) -> Seq<char> {
    "published "@ + escape(branch) + " to "@ + escape(request.remote) + " at "@ + escape(
        request.url,
    )
}

/// What a push is reported as.
pub open spec fn push_lines(request: RequestView, branch: Seq<u8>, count: nat) -> Seq<Seq<char>> {
    if request.all_branches {
        seq![published_line(request, branch)].push(
            "pushed "@ + decimal_nat(count) + " branches in one atomic push"@,
        )
    } else {
        seq![published_line(request, branch)]
    }
}

pub open spec fn with_guide_line(
    lines: Seq<Seq<char>>,
    root: Seq<u8>,
    guide: Option<Seq<u8>>,
) -> Seq<Seq<char>> {
    match stale_guide(root, guide) {
        Some(line) => lines.push(line),
        None => lines,
    }
}

/// The end of a first publication: the hosting side confirmed, the local remote HEAD pointed,
/// and the receipt advanced.
pub open spec fn settle_run(
    s: Session,
    p: Option<ProviderSession>,
    root: Seq<u8>,
    m: MetadataView,
    request: RequestView,
    branch: Seq<u8>,
    lines: Seq<Seq<char>>,
    diagnostics: Seq<Seq<char>>,
    guide: Option<Seq<u8>>,
) -> Course<ReportView> {
    match confirm_head_run(s, p, m, request, branch) {
        (s1, p1, Err(e)) => (s1, p1, Err(e)),
        (s1, p1, Ok(false)) => (
            s1,
            p1,
            Ok(unconfirmed_report(request, branch, lines, diagnostics)),
        ),
        (s1, p1, Ok(true)) => match point_head_run(s1, root, request.remote, branch) {
            (s2, Err(e)) => (s2, p1, Err(e)),
            (s2, Ok(_)) => match write_receipt_run(
                s2,
                root,
                PublishState::Published,
                receipt_for(request),
            ) {
                (s3, Err(e)) => (s3, p1, Err(e)),
                (s3, Ok(_)) => (
                    s3,
                    p1,
                    Ok(
                        ReportView {
                            class: ExitClass::Success,
                            lines: with_guide_line(lines, root, guide),
                            diagnostics,
                        },
                    ),
                ),
            },
        },
    }
}

/// Pushing and verifying, once the receipt says `publishing` and the remote is configured.
pub open spec fn publish_and_verify_run(
    s: Session,
    p: Option<ProviderSession>,
    root: Seq<u8>,
    m: MetadataView,
    request: RequestView,
    branch: Seq<u8>,
    diagnostics: Seq<Seq<char>>,
    guide: Option<Seq<u8>>,
) -> Course<ReportView> {
    match refspecs_run(s, root, request, branch) {
        (s1, Err(e)) => (s1, p, Err(e)),
        (s1, Ok(refspecs)) => match push_run(s1, root, request.remote, refspecs) {
            (s2, Err(e)) => (s2, p, Err(e)),
            (s2, Ok(_)) => match upstreams_run(
                s2,
                bare_of(root),
                request.remote,
                args1(wildcard_of(request.remote)),
            ) {
                (s3, Err(e)) => (s3, p, Err(e)),
                (s3, Ok(_)) => match verify_tracking_run(s3, root, request.remote, branch) {
                    (s4, Err(e)) => (s4, p, Err(e)),
                    (s4, Ok(_)) => settle_run(
                        s4,
                        p,
                        root,
                        m,
                        request,
                        branch,
                        push_lines(request, branch, refspecs.len()),
                        diagnostics,
                        guide,
                    ),
                },
            },
        },
    }
}

fn wildcard_list(remote: &[u8]) -> (r: Vec<Vec<u8>>)
    ensures
        views(r@) == args1(wildcard_of(remote@)),
{
    let mut list: Vec<Vec<u8>> = Vec::new();
    proof {
        assert(views(list@) =~= Seq::empty());
    }
    list.push(wildcard_refspec(remote));
    list
}

/// Pushes, configures the upstreams, and checks what came of it on both sides.
pub fn publish_and_verify<R: GitRunner + ?Sized, P: ProviderRunner + ?Sized>(
    runner: &mut R,
    provider: &mut P,
    enabled: bool,
    grove: &Grove,
    metadata: &Metadata,
    request: &Request,
    flight: &Preflight,
    diagnostics: Vec<String>,
    guide: Option<&[u8]>,
) -> (r: Result<PublishReport>)
    ensures
        (
            final(runner).session(),
            when_enabled(enabled, final(provider).session()),
            report_outcome(r),
        ) == publish_and_verify_run(
            old(runner).session(),
            when_enabled(enabled, old(provider).session()),
            grove.root@,
            metadata@,
            request@,
            flight.default_branch@,
            texts(diagnostics@),
            opt_slice(guide),
        ),
        !enabled ==> final(provider).session() == old(provider).session(),
{
    let refspecs = push_refspecs(runner, grove, request, flight)?;
    push(runner, grove, request, &refspecs)?;
    configure_upstreams(
        runner,
        grove.bare_dir().as_slice(),
        request.remote.as_slice(),
        &wildcard_list(request.remote.as_slice()),
    )?;
    verify_tracking_ref(runner, grove, request, flight)?;
    let mut lines: Vec<String> = Vec::new();
    proof {
        assert(texts(lines@) =~= Seq::empty());
        assert(views(refspecs@).len() == refspecs@.len());
    }
    lines.push(
        text("published ").concat(escaped(flight.default_branch.as_slice()).as_str()).concat(
            " to ",
        ).concat(escaped(request.remote.as_slice()).as_str()).concat(" at ").concat(
            escaped(request.url.as_slice()).as_str(),
        ),
    );
    if request.all_branches {
        lines.push(
            text("pushed ").concat(number(refspecs.len() as u64).as_str()).concat(
                " branches in one atomic push",
            ),
        );
    }
    if !confirm_head(runner, provider, enabled, metadata, request, flight)? {
        return Ok(unconfirmed_head_report(request, flight, lines, diagnostics));
    }
    point_remote_head(runner, grove, request, flight)?;
    match stale_guide_line(grove, guide) {
        Some(line) => {
            lines.push(line);
        },
        None => {},
    }
    write_receipt(runner, grove, PublishState::Published, &published_receipt(request))?;
    Ok(PublishReport { class: ExitClass::Success, lines, diagnostics })
}

// ----------------------------------------------------------------------- a repair

/// Comparing the tracking ref with the local branch, and pushing where it is strictly behind.
pub open spec fn advance_run(s: Session, root: Seq<u8>, request: RequestView, branch: Seq<u8>) -> (
    Session,
    Outcome<Seq<Seq<char>>>,
) {
    let local = branch_ref_of(branch);
    let tracking = tracking_of(request.remote, branch);
    match ancestry_run(s, root, tracking, local) {
        (s1, Err(e)) => (s1, Err(e)),
        (s1, Ok(Ancestry::NotAncestor)) => (
            s1,
            Err(
                conflict_error(
                    "the publication target is ahead of this grove or has diverged"@,
                    escape(tracking) + " is not behind this grove's "@ + escape(local)
                        + "; nothing was pushed"@,
                ),
            ),
        ),
        (s1, Ok(Ancestry::MissingObject)) => (
            s1,
            Err(
                failure(
                    escape(tracking) + " vanished while this grove was being repaired"@,
                ),
            ),
        ),
        (s1, Ok(Ancestry::Ancestor)) => match resolve_run(s1, root, tracking) {
            (s2, Err(e)) => (s2, Err(e)),
            (s2, Ok(there)) => match resolve_run(s2, root, local) {
                (s3, Err(e)) => (s3, Err(e)),
                (s3, Ok(here)) => if there == here {
                    (
                        s3,
                        Ok(seq![escape(request.remote) + " is already at "@ + escape(here)]),
                    )
                } else {
                    match refspecs_run(s3, root, request, branch) {
                        (s4, Err(e)) => (s4, Err(e)),
                        (s4, Ok(refspecs)) => match push_run(
                            s4,
                            root,
                            request.remote,
                            refspecs,
                        ) {
                            (s5, Err(e)) => (s5, Err(e)),
                            (s5, Ok(_)) => (
                                s5,
                                Ok(
                                    seq![
                                        "advanced "@ + escape(branch) + " on "@ + escape(
                                            request.remote,
                                        ) + " to "@ + escape(here),
                                    ],
                                ),
                            ),
                        },
                    }
                },
            },
        },
    }
}

/// The end of a repair: the hosting side confirmed, or the receipt taken back to `publishing`.
pub open spec fn settle_repair_run(
    s: Session,
    p: Option<ProviderSession>,
    root: Seq<u8>,
    m: MetadataView,
    request: RequestView,
    branch: Seq<u8>,
    lines: Seq<Seq<char>>,
) -> Course<ReportView> {
    match confirm_head_run(s, p, m, request, branch) {
        (s1, p1, Err(e)) => (s1, p1, Err(e)),
        (s1, p1, Ok(false)) => match write_receipt_run(
            s1,
            root,
            PublishState::Publishing,
            receipt_for(request),
        ) {
            (s2, Err(e)) => (s2, p1, Err(e)),
            (s2, Ok(_)) => (s2, p1, Ok(unconfirmed_report(request, branch, lines, seq![]))),
        },
        (s1, p1, Ok(true)) => match point_head_run(s1, root, request.remote, branch) {
            (s2, Err(e)) => (s2, p1, Err(e)),
            (s2, Ok(_)) => (
                s2,
                p1,
                Ok(ReportView { class: ExitClass::Success, lines, diagnostics: seq![] }),
            ),
        },
    }
}

/// Repairing a completed publication.
pub open spec fn repair_run(
    s: Session,
    p: Option<ProviderSession>,
    root: Seq<u8>,
    m: MetadataView,
    request: RequestView,
    branch: Seq<u8>,
) -> Course<ReportView> {
    match fetch_from(s, root, args1(request.remote), 0) {
        (s1, Err(e)) => (s1, p, Err(e)),
        (s1, Ok(_)) => match configure_remote_run(s1, root, request, true) {
            (s2, Err(e)) => (s2, p, Err(e)),
            (s2, Ok(_)) => match upstreams_run(
                s2,
                bare_of(root),
                request.remote,
                args1(wildcard_of(request.remote)),
            ) {
                (s3, Err(e)) => (s3, p, Err(e)),
                (s3, Ok(_)) => match advance_run(s3, root, request, branch) {
                    (s4, Err(e)) => (s4, p, Err(e)),
                    (s4, Ok(lines)) => match verify_tracking_run(
                        s4,
                        root,
                        request.remote,
                        branch,
                    ) {
                        (s5, Err(e)) => (s5, p, Err(e)),
                        (s5, Ok(_)) => settle_repair_run(
                            s5,
                            p,
                            root,
                            m,
                            request,
                            branch,
                            lines,
                        ),
                    },
                },
            },
        },
    }
}

fn one_line(line: String) -> (r: Vec<String>)
    ensures
        texts(r@) == seq![line@],
{
    let mut lines: Vec<String> = Vec::new();
    proof {
        assert(texts(lines@) =~= Seq::empty());
    }
    lines.push(line);
    lines
}

fn advance<R: GitRunner + ?Sized>(
    runner: &mut R,
    grove: &Grove,
    request: &Request,
    flight: &Preflight,
) -> (r: Result<Vec<String>>)
    ensures
        (final(runner).session(), notes_outcome(r)) == advance_run(
            old(runner).session(),
            grove.root@,
            request@,
            flight.default_branch@,
        ),
{
    let local_ref = flight.default_ref();
    let tracking = tracking_ref(request.remote.as_slice(), flight.default_branch.as_slice());
    match is_ancestor(runner, grove, tracking.as_slice(), local_ref.as_slice())? {
        Ancestry::NotAncestor => Err(
            conflict(
                text("the publication target is ahead of this grove or has diverged"),
                escaped(tracking.as_slice()).concat(" is not behind this grove's ").concat(
                    escaped(local_ref.as_slice()).as_str(),
                ).concat("; nothing was pushed"),
            ),
        ),
        Ancestry::MissingObject => Err(
            GroveError::failure(
                escaped(tracking.as_slice()).concat(
                    " vanished while this grove was being repaired",
                ),
            ),
        ),
        Ancestry::Ancestor => {
            let remote_oid = resolve(runner, grove, tracking.as_slice())?;
            let local_oid = resolve(runner, grove, local_ref.as_slice())?;
            if same(remote_oid.as_slice(), local_oid.as_slice()) {
                return Ok(
                    one_line(
                        escaped(request.remote.as_slice()).concat(" is already at ").concat(
                            escaped(local_oid.as_slice()).as_str(),
                        ),
                    ),
                );
            }
            let refspecs = push_refspecs(runner, grove, request, flight)?;
            push(runner, grove, request, &refspecs)?;
            Ok(
                one_line(
                    text("advanced ").concat(
                        escaped(flight.default_branch.as_slice()).as_str(),
                    ).concat(" on ").concat(escaped(request.remote.as_slice()).as_str()).concat(
                        " to ",
                    ).concat(escaped(local_oid.as_slice()).as_str()),
                ),
            )
        },
    }
}

/// Repairs a completed publication: the local configuration first, a push only where the target
/// is strictly behind, and the hosting side's HEAD last.
pub fn repair_published<R: GitRunner + ?Sized, P: ProviderRunner + ?Sized>(
    runner: &mut R,
    provider: &mut P,
    enabled: bool,
    grove: &Grove,
    metadata: &Metadata,
    request: &Request,
    flight: &Preflight,
) -> (r: Result<PublishReport>)
    ensures
        (
            final(runner).session(),
            when_enabled(enabled, final(provider).session()),
            report_outcome(r),
        ) == repair_run(
            old(runner).session(),
            when_enabled(enabled, old(provider).session()),
            grove.root@,
            metadata@,
            request@,
            flight.default_branch@,
        ),
        !enabled ==> final(provider).session() == old(provider).session(),
{
    only_remote(request.remote.as_slice()).execute(runner, grove)?;
    configure_local_remote(runner, grove, request, true)?;
    configure_upstreams(
        runner,
        grove.bare_dir().as_slice(),
        request.remote.as_slice(),
        &wildcard_list(request.remote.as_slice()),
    )?;
    let lines = advance(runner, grove, request, flight)?;
    verify_tracking_ref(runner, grove, request, flight)?;
    let none: Vec<String> = Vec::new();
    proof {
        assert(texts(none@) =~= seq![]);
    }
    if !confirm_head(runner, provider, enabled, metadata, request, flight)? {
        write_receipt(runner, grove, PublishState::Publishing, &published_receipt(request))?;
        return Ok(unconfirmed_head_report(request, flight, lines, none));
    }
    point_remote_head(runner, grove, request, flight)?;
    Ok(PublishReport { class: ExitClass::Success, lines, diagnostics: none })
}

// -------------------------------------------------------------------- the whole

/// Taking back a creation receipt that was only half written, and reading the record again. Any
/// other record is left as it is.
pub open spec fn heal_run(s: Session, root: Seq<u8>, m: MetadataView) -> (
    Session,
    Outcome<MetadataView>,
) {
    if m.publish_state != PublishState::Creating || m.publish_url is Some || creating_in(m) is Ok {
        (s, Ok(m))
    } else {
        match rollback_run(s, root) {
            (s1, Err(e)) => (s1, Err(e)),
            (s1, Ok(_)) => read_run(s1, root),
        }
    }
}

/// Takes back a creation receipt that was only half written.
pub fn heal_incomplete_creating_receipt<R: GitRunner + ?Sized>(
    runner: &mut R,
    grove: &Grove,
    metadata: &Metadata,
) -> (r: Result<Metadata>)
    ensures
        (final(runner).session(), metadata_outcome(r)) == heal_run(
            old(runner).session(),
            grove.root@,
            metadata@,
        ),
{
    if metadata.publish_state != PublishState::Creating {
        return Ok(metadata.copied());
    }
    if metadata.publish_url.is_some() {
        return Ok(metadata.copied());
    }
    if creating_receipt(metadata).is_ok() {
        return Ok(metadata.copied());
    }
    rollback_creating_receipt(runner, grove)?;
    read(runner, grove)
}

/// The part of a first publication that changes something: the receipt, the local remote, and
/// the push.
pub open spec fn mutate_run(
    s: Session,
    p: Option<ProviderSession>,
    root: Seq<u8>,
    m: MetadataView,
    request: RequestView,
    branch: Seq<u8>,
    notes: Seq<Seq<char>>,
    present: bool,
    guide: Option<Seq<u8>>,
) -> Course<ReportView> {
    match write_receipt_run(s, root, PublishState::Publishing, receipt_for(request)) {
        (s1, Err(e)) => (s1, p, Err(e)),
        (s1, Ok(_)) => match configure_remote_run(s1, root, request, present) {
            (s2, Err(e)) => (s2, p, Err(e)),
            (s2, Ok(_)) => publish_and_verify_run(s2, p, root, m, request, branch, notes, guide),
        },
    }
}

/// The publication of a healed record.
pub open spec fn healed_run(
    s: Session,
    p: Option<ProviderSession>,
    root: Seq<u8>,
    m: MetadataView,
    request: RequestView,
    guide: Option<Seq<u8>>,
    nonce: Outcome<Seq<char>>,
) -> Course<ReportView> {
    match live_url_run(s, root, request.remote) {
        (s1, Err(e)) => (s1, p, Err(e)),
        (s1, Ok(live)) => match rerun(m, live, request) {
            Err(e) => (s1, p, Err(e)),
            Ok(resume) => match preflight_run(s1, root, m, request) {
                (s2, Err(e)) => (s2, p, Err(e)),
                (s2, Ok(branch)) => if resume == Resume::RepairPublished {
                    repair_run(s2, p, root, m, request, branch)
                } else {
                    match inspect_run(s2, root, request.url, branch, nonce) {
                        (s3, Err(e)) => (s3, p, Err(e)),
                        (s3, Ok(notes)) => mutate_run(
                            s3,
                            p,
                            root,
                            m,
                            request,
                            branch,
                            notes,
                            live is Some,
                            guide,
                        ),
                    }
                },
            },
        },
    }
}

/// The whole publication. `nonce` is what drawing the probe ref's name gave, where it came to
/// that.
pub open spec fn publication(
    s: Session,
    p: Option<ProviderSession>,
    root: Seq<u8>,
    m: MetadataView,
    request: RequestView,
    guide: Option<Seq<u8>>,
    nonce: Outcome<Seq<char>>,
) -> Course<ReportView> {
    match heal_run(s, root, m) {
        (s1, Err(e)) => (s1, p, Err(e)),
        (s1, Ok(healed)) => healed_run(s1, p, root, healed, request, guide, nonce),
    }
}

fn run_healed<R: GitRunner + ?Sized, P: ProviderRunner + ?Sized>(
    runner: &mut R,
    provider: &mut P,
    enabled: bool,
    grove: &Grove,
    metadata: &Metadata,
    request: &Request,
    guide: Option<&[u8]>,
) -> (r: Result<PublishReport>)
    ensures
        exists|nonce: Outcome<Seq<char>>|
            possible_nonce(nonce) && (
                final(runner).session(),
                when_enabled(enabled, final(provider).session()),
                report_outcome(r),
            ) == #[trigger] healed_run(
                old(runner).session(),
                when_enabled(enabled, old(provider).session()),
                grove.root@,
                metadata@,
                request@,
                opt_slice(guide),
                nonce,
            ),
        !enabled ==> final(provider).session() == old(provider).session(),
{
    let ghost start = runner.session();
    let ghost p = when_enabled(enabled, provider.session());
    let ghost any = some_nonce();
    let ghost root = grove.root@;
    let ghost req = request@;
    let ghost m = metadata@;
    let ghost g = opt_slice(guide);
    proof {
        some_nonce_is_possible();
    }
    let live = match live_remote_url(runner, grove, request.remote.as_slice()) {
        Ok(live) => live,
        Err(e) => {
            proof {
                assert((runner.session(), p, Err::<ReportView, ErrorView>(e@)) == healed_run(
                    start,
                    p,
                    root,
                    m,
                    req,
                    g,
                    any,
                ));
            }
            return Err(e);
        },
    };
    let live_slice: Option<&[u8]> = match &live {
        Some(url) => Some(url.as_slice()),
        None => None,
    };
    let resume = match accept_rerun(metadata, live_slice, request) {
        Ok(resume) => resume,
        Err(e) => {
            proof {
                assert((runner.session(), p, Err::<ReportView, ErrorView>(e@)) == healed_run(
                    start,
                    p,
                    root,
                    m,
                    req,
                    g,
                    any,
                ));
            }
            return Err(e);
        },
    };
    let flight = match preflight(runner, grove, metadata, request) {
        Ok(flight) => flight,
        Err(e) => {
            proof {
                assert((runner.session(), p, Err::<ReportView, ErrorView>(e@)) == healed_run(
                    start,
                    p,
                    root,
                    m,
                    req,
                    g,
                    any,
                ));
            }
            return Err(e);
        },
    };
    if resume == Resume::RepairPublished {
        let r = repair_published(runner, provider, enabled, grove, metadata, request, &flight);
        proof {
            assert((
                runner.session(),
                when_enabled(enabled, provider.session()),
                report_outcome(r),
            ) == healed_run(start, p, root, m, req, g, any));
        }
        return r;
    }
    let ghost before = runner.session();
    let inspected = inspect_target(runner, grove, request, &flight);
    let ghost nonce = choose|nonce: Outcome<Seq<char>>|
        possible_nonce(nonce) && (runner.session(), notes_outcome(inspected))
            == #[trigger] inspect_run(
            before,
            root,
            req.url,
            flight.default_branch@,
            nonce,
        );
    let notes = match inspected {
        Ok(notes) => notes,
        Err(e) => {
            proof {
                assert((runner.session(), p, Err::<ReportView, ErrorView>(e@)) == healed_run(
                    start,
                    p,
                    root,
                    m,
                    req,
                    g,
                    nonce,
                ));
            }
            return Err(e);
        },
    };
    match write_receipt(runner, grove, PublishState::Publishing, &published_receipt(request)) {
        Ok(_) => {},
        Err(e) => {
            proof {
                assert((runner.session(), p, Err::<ReportView, ErrorView>(e@)) == healed_run(
                    start,
                    p,
                    root,
                    m,
                    req,
                    g,
                    nonce,
                ));
            }
            return Err(e);
        },
    }
    match configure_local_remote(runner, grove, request, live.is_some()) {
        Ok(_) => {},
        Err(e) => {
            proof {
                assert((runner.session(), p, Err::<ReportView, ErrorView>(e@)) == healed_run(
                    start,
                    p,
                    root,
                    m,
                    req,
                    g,
                    nonce,
                ));
            }
            return Err(e);
        },
    }
    let r = publish_and_verify(
        runner,
        provider,
        enabled,
        grove,
        metadata,
        request,
        &flight,
        notes,
        guide,
    );
    proof {
        assert((
            runner.session(),
            when_enabled(enabled, provider.session()),
            report_outcome(r),
        ) == healed_run(start, p, root, m, req, g, nonce));
    }
    r
}

/// Publishes, with a provider at hand where `enabled` says so. `guide` is what `AGENTS.md` in
/// the grove's root holds, when it can be read.
pub fn run_with_provider<R: GitRunner + ?Sized, P: ProviderRunner + ?Sized>(
    runner: &mut R,
    provider: &mut P,
    enabled: bool,
    grove: &Grove,
    metadata: &Metadata,
    request: &Request,
    guide: Option<&[u8]>,
) -> (r: Result<PublishReport>)
    ensures
        exists|nonce: Outcome<Seq<char>>|
            possible_nonce(nonce) && (
                final(runner).session(),
                when_enabled(enabled, final(provider).session()),
                report_outcome(r),
            ) == #[trigger] publication(
                old(runner).session(),
                when_enabled(enabled, old(provider).session()),
                grove.root@,
                metadata@,
                request@,
                opt_slice(guide),
                nonce,
            ),
        !enabled ==> final(provider).session() == old(provider).session(),
{
    let ghost start = runner.session();
    let ghost p = when_enabled(enabled, provider.session());
    let healed = match heal_incomplete_creating_receipt(runner, grove, metadata) {
        Ok(healed) => healed,
        Err(e) => {
            proof {
                some_nonce_is_possible();
                assert((runner.session(), p, Err::<ReportView, ErrorView>(e@)) == publication(
                    start,
                    p,
                    grove.root@,
                    metadata@,
                    request@,
                    opt_slice(guide),
                    some_nonce(),
                ));
            }
            return Err(e);
        },
    };
    let ghost middle = runner.session();
    let r = run_healed(runner, provider, enabled, grove, &healed, request, guide);
    proof {
        let nonce = choose|nonce: Outcome<Seq<char>>|
            possible_nonce(nonce) && (
                runner.session(),
                when_enabled(enabled, provider.session()),
                report_outcome(r),
            ) == #[trigger] healed_run(
                middle,
                p,
                grove.root@,
                healed@,
                request@,
                opt_slice(guide),
                nonce,
            );
        assert((
            runner.session(),
            when_enabled(enabled, provider.session()),
            report_outcome(r),
        ) == publication(
            start,
            p,
            grove.root@,
            metadata@,
            request@,
            opt_slice(guide),
            nonce,
        ));
    }
    r
}

/// Publishes the grove to a URL. `guide` is what `AGENTS.md` in the grove's root holds, when it
/// can be read.
pub fn run<R: GitRunner + ?Sized>(
    runner: &mut R,
    grove: &Grove,
    metadata: &Metadata,
    request: &Request,
    guide: Option<&[u8]>,
) -> (r: Result<PublishReport>)
    ensures
        exists|nonce: Outcome<Seq<char>>|
            possible_nonce(nonce) && (
                final(runner).session(),
                None::<ProviderSession>,
                report_outcome(r),
            )
                == #[trigger] publication(
                old(runner).session(),
                None,
                grove.root@,
                metadata@,
                request@,
                opt_slice(guide),
                nonce,
            ),
{
    let mut none = RecordingFake::new();
    run_with_provider(runner, &mut none, false, grove, metadata, request, guide)
}

} // verus!
