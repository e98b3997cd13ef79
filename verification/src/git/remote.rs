//! Read-only inspection of a publication target, and the probe refs that make it possible
//! before a remote exists.
//!
//! A target is inspected by URL, because whether to configure a remote is not decided yet. The
//! branch is fetched into a ref of its own below [`PROBE_PREFIX`] and compared there.
use vstd::prelude::*;
use crate::bytes::{
    after, bytes_of, copied, find, has_prefix, is_lit, joined, lemma_find_bounds, lemma_views_push,
    lit, opt_view, position, prefixed, same, split, split_on, starts_with, strip_prefix, views,
    without_prefix, COLON, LF, STAR, TAB,
};
use crate::error::{
    detailed, failure, failure_error, list_outcome, plain, ErrorView, GroveError, Result,
};
use crate::fsx::nonce::{hex_nonce, nonce_outcome, possible_nonce};
use crate::git::config::Outcome;
use crate::git::query::branch_ref_of;
use crate::git::runner::{
    args10, args4, args5, args6, invoke, invoke_in, lemma_pair_views_push, pair_views, step,
    GitRunner, Invocation, Session,
};
use crate::grove::discover::{bare_of, Grove};
use crate::text::{decimal, escape, escaped, status_number, text};

verus! {

broadcast use {lemma_views_push, lemma_pair_views_push};

/// The namespace every publication probe ref lives in.
pub const PROBE_PREFIX: &'static str = "refs/grove/publish-probe/";

/// What a publication target advertises.
#[derive(Debug)]
pub struct RemoteAdvert {
    /// The target advertises nothing at all.
    pub empty: bool,
    /// The full ref that the target's HEAD names.
    pub head_symref: Option<Vec<u8>>,
    /// The object that the target's HEAD resolves to.
    pub head_oid: Option<Vec<u8>>,
    /// Every advertised head, as its full ref and its object, in advertised order.
    pub heads: Vec<(Vec<u8>, Vec<u8>)>,
}

pub struct AdvertView {
    pub empty: bool,
    pub head_symref: Option<Seq<u8>>,
    pub head_oid: Option<Seq<u8>>,
    pub heads: Seq<(Seq<u8>, Seq<u8>)>,
}

impl View for RemoteAdvert {
    type V = AdvertView;

    open spec fn view(&self) -> AdvertView {
        AdvertView {
            empty: self.empty,
            head_symref: opt_view(self.head_symref),
            head_oid: opt_view(self.head_oid),
            heads: pair_views(self.heads@),
        }
    }
}

/// The object advertised under `name`, looking from position `i` on.
pub open spec fn object_from(heads: Seq<(Seq<u8>, Seq<u8>)>, name: Seq<u8>, i: int) -> Option<Seq<u8>>
    decreases heads.len() - i,
{
    if i >= heads.len() {
        None
    } else if heads[i].0 == name {
        Some(heads[i].1)
    } else {
        object_from(heads, name, i + 1)
    }
}

impl RemoteAdvert {
    /// The object advertised for a branch, if the target has it.
    pub fn head_oid_for(&self, branch: &[u8]) -> (r: Option<&Vec<u8>>)
        ensures
            match r {
                Some(oid) => object_from(self@.heads, branch_ref_of(branch@), 0) == Some(oid@),
                None => object_from(self@.heads, branch_ref_of(branch@), 0) is None,
            },
    {
        let wanted = prefixed("refs/heads/", branch);
        let mut i: usize = 0;
        while i < self.heads.len()
            invariant
                i <= self.heads.len(),
                wanted@ == branch_ref_of(branch@),
                object_from(self@.heads, wanted@, 0) == object_from(
                    self@.heads,
                    wanted@,
                    i as int,
                ),
            decreases self.heads.len() - i,
        {
            proof {
                assert(self@.heads[i as int] == (
                    self.heads@[i as int].0@,
                    self.heads@[i as int].1@,
                ));
            }
            if same(self.heads[i].0.as_slice(), wanted.as_slice()) {
                return Some(&self.heads[i].1);
            }
            i = i + 1;
        }
        None
    }
}

/// How one commit relates to another. An object that does not exist is neither an ancestor nor
/// unrelated.
#[derive(Debug, Clone, Copy, PartialEq, Eq, Structural)]
pub enum Ancestry {
    Ancestor,
    NotAncestor,
    MissingObject,
}

/// A probe ref that was fetched and not yet deleted.
#[derive(Debug)]
pub struct ProbeRef {
    pub name: Vec<u8>,
}

// -------------------------------------------------------------- advertisement

pub open spec fn invalid_advert(detail: Seq<char>) -> ErrorView {
    detailed(failure("git returned an invalid remote advertisement"@), detail)
}

fn invalid(detail: String) -> (r: GroveError)
    ensures
        r@ == invalid_advert(detail@),
{
    failure_error("git returned an invalid remote advertisement").with_detail(detail)
}

pub open spec fn advertises(heads: Seq<(Seq<u8>, Seq<u8>)>, name: Seq<u8>) -> bool {
    exists|i: int| 0 <= i < heads.len() && (#[trigger] heads[i]).0 == name
}

/// What one more line adds to an advertisement.
pub open spec fn absorbed(advert: AdvertView, line: Seq<u8>) -> Outcome<AdvertView> {
    let tab = find(line, TAB);
    if tab >= line.len() {
        Err(invalid_advert("a line carries no tab separator: "@ + escape(line)))
    } else {
        let left = line.subrange(0, tab);
        let right = after(line, tab + 1);
        if left.len() == 0 || right.len() == 0 {
            Err(invalid_advert("a line has an empty field: "@ + escape(line)))
        } else {
            match without_prefix(left, lit("ref: ")) {
                Some(target) => if target.len() == 0 {
                    Err(invalid_advert("a symref line names no target: "@ + escape(line)))
                } else if right != lit("HEAD") {
                    Ok(advert)
                } else if advert.head_symref is Some {
                    Err(invalid_advert("HEAD is advertised as a symref twice"@))
                } else {
                    Ok(AdvertView { head_symref: Some(target), ..advert })
                },
                None => if right == lit("HEAD") {
                    if advert.head_oid is Some {
                        Err(invalid_advert("HEAD is advertised twice"@))
                    } else {
                        Ok(AdvertView { head_oid: Some(left), ..advert })
                    }
                } else if advertises(advert.heads, right) {
                    Err(invalid_advert(escape(right) + " is advertised twice"@))
                } else {
                    Ok(AdvertView { heads: advert.heads.push((right, left)), ..advert })
                },
            }
        }
    }
}

/// What the lines from `i` on add to an advertisement.
pub open spec fn absorbed_from(lines: Seq<Seq<u8>>, advert: AdvertView, i: int) -> Outcome<AdvertView>
    decreases lines.len() - i,
{
    if i >= lines.len() {
        Ok(advert)
    } else {
        match absorbed(advert, lines[i]) {
            Err(e) => Err(e),
            Ok(next) => absorbed_from(lines, next, i + 1),
        }
    }
}

/// The lines of a listing; a final line end starts no line.
pub open spec fn advert_lines(stdout: Seq<u8>) -> Seq<Seq<u8>> {
    let fields = split(stdout, LF);
    if fields.last().len() == 0 {
        fields.drop_last()
    } else {
        fields
    }
}

/// What a listing advertises.
pub open spec fn advert_in(stdout: Seq<u8>) -> Outcome<AdvertView> {
    let lines = advert_lines(stdout);
    absorbed_from(
        lines,
        AdvertView { empty: lines.len() == 0, head_symref: None, head_oid: None, heads: seq![] },
        0,
    )
}

pub open spec fn advert_outcome(r: Result<RemoteAdvert>) -> Outcome<AdvertView> {
    match r {
        Ok(a) => Ok(a@),
        Err(e) => Err(e@),
    }
}

pub open spec fn distinct_names(heads: Seq<(Seq<u8>, Seq<u8>)>) -> bool {
    forall|i: int, j: int|
        0 <= i < j < heads.len() ==> (#[trigger] heads[i]).0 != (#[trigger] heads[j]).0
}

proof fn lemma_absorbed_distinct(lines: Seq<Seq<u8>>, advert: AdvertView, i: int)
    requires
        distinct_names(advert.heads),
        absorbed_from(lines, advert, i) is Ok,
    ensures
        distinct_names(absorbed_from(lines, advert, i)->Ok_0.heads),
        absorbed_from(lines, advert, i)->Ok_0.empty == advert.empty,
    decreases lines.len() - i,
{
    if i < lines.len() {
        let next = absorbed(advert, lines[i])->Ok_0;
        assert(distinct_names(next.heads)) by {
            assert forall|a: int, b: int| 0 <= a < b < next.heads.len() implies (
            #[trigger] next.heads[a]).0 != (#[trigger] next.heads[b]).0 by {
                assert(next.heads[a] == advert.heads[a]);
                if b < advert.heads.len() {
                    assert(next.heads[b] == advert.heads[b]);
                }
            }
        }
        lemma_absorbed_distinct(lines, next, i + 1);
    }
}

/// No accepted advertisement names a head twice, and one is empty exactly when the target
/// printed nothing at all: a target that advertises only its HEAD is not empty.
pub proof fn accepted_advertisements_are_unambiguous(stdout: Seq<u8>)
    requires
        advert_in(stdout) is Ok,
    ensures
        distinct_names(advert_in(stdout)->Ok_0.heads),
        advert_in(stdout)->Ok_0.empty <==> stdout.len() == 0,
{
    let lines = advert_lines(stdout);
    let start = AdvertView {
        empty: lines.len() == 0,
        head_symref: None,
        head_oid: None,
        heads: seq![],
    };
    lemma_absorbed_distinct(lines, start, 0);
    let fields = split(stdout, LF);
    lemma_find_bounds(stdout, LF, 0);
    let k = find(stdout, LF);
    if k < stdout.len() {
        crate::bytes::lemma_split_fields(after(stdout, k + 1), LF);
        assert(fields.len() >= 2);
    } else {
        assert(fields =~= seq![stdout]);
        assert(fields.last() == stdout);
    }
}

fn absorb(advert: &mut RemoteAdvert, line: &[u8]) -> (r: Result<()>)
    ensures
        match r {
            Ok(_) => absorbed(old(advert)@, line@) == Ok::<AdvertView, ErrorView>(final(advert)@),
            Err(e) => absorbed(old(advert)@, line@) == Err::<AdvertView, ErrorView>(e@),
        },
{
    let tab = position(line, TAB);
    if tab == line.len() {
        return Err(
            invalid(
                text("a line carries no tab separator: ").concat(escaped(line).as_str()),
            ),
        );
    }
    let left = vstd::slice::slice_subrange(line, 0, tab);
    let right = vstd::slice::slice_subrange(line, tab + 1, line.len());
    if left.len() == 0 || right.len() == 0 {
        return Err(
            invalid(text("a line has an empty field: ").concat(escaped(line).as_str())),
        );
    }
    match strip_prefix(left, "ref: ".as_bytes()) {
        Some(target) => {
            if target.len() == 0 {
                return Err(
                    invalid(
                        text("a symref line names no target: ").concat(escaped(line).as_str()),
                    ),
                );
            }
            if !is_lit(right, "HEAD") {
                return Ok(());
            }
            if advert.head_symref.is_some() {
                return Err(invalid(text("HEAD is advertised as a symref twice")));
            }
            advert.head_symref = Some(copied(target));
            Ok(())
        },
        None => {
            if is_lit(right, "HEAD") {
                if advert.head_oid.is_some() {
                    return Err(invalid(text("HEAD is advertised twice")));
                }
                advert.head_oid = Some(copied(left));
                return Ok(());
            }
            let mut i: usize = 0;
            while i < advert.heads.len()
                invariant
                    i <= advert.heads.len(),
                    *advert == *old(advert),
                    absorbed(old(advert)@, line@) == (if advertises(old(advert)@.heads, right@) {
                        Err(invalid_advert(escape(right@) + " is advertised twice"@))
                    } else {
                        Ok(
                            AdvertView {
                                heads: old(advert)@.heads.push((right@, left@)),
                                ..old(advert)@
                            },
                        )
                    }),
                    forall|j: int|
                        0 <= j < i ==> (#[trigger] old(advert)@.heads[j]).0 != right@,
                decreases advert.heads.len() - i,
            {
                proof {
                    assert(old(advert)@.heads[i as int] == (
                        advert.heads@[i as int].0@,
                        advert.heads@[i as int].1@,
                    ));
                }
                if same(advert.heads[i].0.as_slice(), right) {
                    return Err(invalid(escaped(right).concat(" is advertised twice")));
                }
                i = i + 1;
            }
            advert.heads.push((copied(right), copied(left)));
            Ok(())
        },
    }
}

/// Reads what a listing advertises.
pub fn parse_advertisement(stdout: &[u8]) -> (r: Result<RemoteAdvert>)
    ensures
        advert_outcome(r) == advert_in(stdout@),
{
    let mut lines = split_on(stdout, LF);
    let ghost fields = views(lines@);
    proof {
        assert(fields.len() == lines@.len());
        assert(fields.last() == lines@[lines@.len() - 1]@);
    }
    if lines[lines.len() - 1].len() == 0 {
        let _ = lines.pop();
        proof {
            assert(views(lines@) =~= fields.drop_last());
        }
    }
    let ghost all = views(lines@);
    let mut advert = RemoteAdvert {
        empty: lines.len() == 0,
        head_symref: None,
        head_oid: None,
        heads: Vec::new(),
    };
    let mut i: usize = 0;
    proof {
        assert(all.len() == lines@.len());
        assert(pair_views(advert.heads@) =~= seq![]);
    }
    while i < lines.len()
        invariant
            i <= lines.len(),
            all == views(lines@),
            all.len() == lines@.len(),
            advert_in(stdout@) == absorbed_from(all, advert@, i as int),
        decreases lines.len() - i,
    {
        proof {
            assert(all[i as int] == lines@[i as int]@);
        }
        absorb(&mut advert, lines[i].as_slice())?;
        i = i + 1;
    }
    Ok(advert)
}

pub open spec fn advertise_run(s: Session, url: Seq<u8>) -> (Session, Outcome<AdvertView>) {
    match step(
        s,
        invoke(
            args6(
                lit("ls-remote"),
                lit("--symref"),
                lit("--"),
                url,
                lit("HEAD"),
                lit("refs/heads/*"),
            ),
        ),
    ) {
        (s1, Err(e)) => (s1, Err(e)),
        (s1, Ok(out)) => if out.ok() {
            (s1, advert_in(out.stdout))
        } else {
            (
                s1,
                Err(
                    detailed(
                        failure("cannot read the publication target "@ + escape(url)),
                        escape(out.stderr),
                    ),
                ),
            )
        },
    }
}

/// Asks the target at `url` what it has, without configuring anything.
pub fn advertise<R: GitRunner + ?Sized>(runner: &mut R, url: &[u8]) -> (r: Result<RemoteAdvert>)
    ensures
        (final(runner).session(), advert_outcome(r)) == advertise_run(
            old(runner).session(),
            url@,
        ),
{
    let output = runner.run(
        Invocation::new().word("ls-remote").word("--symref").word("--").arg(url).word("HEAD").word(
            "refs/heads/*",
        ),
    )?;
    if !output.ok() {
        return Err(
            GroveError::failure(
                text("cannot read the publication target ").concat(escaped(url).as_str()),
            ).with_detail(escaped(output.stderr.as_slice())),
        );
    }
    parse_advertisement(output.stdout.as_slice())
}

// ------------------------------------------------------------------ probe refs

pub open spec fn delete_probe_run(s: Session, root: Seq<u8>, name: Seq<u8>) -> (
    Session,
    Outcome<()>,
) {
    if !starts_with(name, lit(PROBE_PREFIX)) {
        (
            s,
            Err(
                detailed(
                    failure("refused to delete a ref outside the publication probe namespace"@),
                    escape(name),
                ),
            ),
        )
    } else {
        match step(
            s,
            invoke_in(bare_of(root), args4(lit("update-ref"), lit("-d"), lit("--"), name)),
        ) {
            (s1, Err(e)) => (s1, Err(e)),
            (s1, Ok(out)) => if out.ok() {
                (s1, Ok(()))
            } else {
                (
                    s1,
                    Err(
                        detailed(
                            failure(
                                "cannot delete the publication probe ref "@ + escape(name),
                            ),
                            escape(out.stderr),
                        ),
                    ),
                )
            },
        }
    }
}

/// Deletes one probe ref, and refuses any other ref.
pub fn delete_probe_ref<R: GitRunner + ?Sized>(runner: &mut R, grove: &Grove, name: &[u8]) -> (r:
    Result<()>)
    ensures
        (final(runner).session(), plain(r)) == delete_probe_run(
            old(runner).session(),
            grove.root@,
            name@,
        ),
{
    if !has_prefix(name, PROBE_PREFIX.as_bytes()) {
        return Err(
            failure_error(
                "refused to delete a ref outside the publication probe namespace",
            ).with_detail(escaped(name)),
        );
    }
    let output = runner.run(
        Invocation::new().git_dir(grove.bare_dir().as_slice()).word("update-ref").word("-d").word(
            "--",
        ).arg(name),
    )?;
    if !output.ok() {
        return Err(
            GroveError::failure(
                text("cannot delete the publication probe ref ").concat(escaped(name).as_str()),
            ).with_detail(escaped(output.stderr.as_slice())),
        );
    }
    Ok(())
}

/// Deleting the listed probe refs from `i` on, after those `purged` so far.
pub open spec fn purge_from(
    s: Session,
    root: Seq<u8>,
    lines: Seq<Seq<u8>>,
    purged: Seq<Seq<u8>>,
    i: int,
) -> (Session, Outcome<Seq<Seq<u8>>>)
    decreases lines.len() - i,
{
    if i >= lines.len() {
        (s, Ok(purged))
    } else if lines[i].len() == 0 {
        purge_from(s, root, lines, purged, i + 1)
    } else if !starts_with(lines[i], lit(PROBE_PREFIX)) {
        (
            s,
            Err(
                detailed(
                    failure("git listed a ref outside the publication probe namespace"@),
                    escape(lines[i]),
                ),
            ),
        )
    } else {
        match delete_probe_run(s, root, lines[i]) {
            (s1, Err(e)) => (s1, Err(e)),
            (s1, Ok(_)) => purge_from(s1, root, lines, purged.push(lines[i]), i + 1),
        }
    }
}

pub open spec fn purge_run(s: Session, root: Seq<u8>) -> (Session, Outcome<Seq<Seq<u8>>>) {
    match step(
        s,
        invoke_in(
            bare_of(root),
            args4(
                lit("for-each-ref"),
                lit("--format=%(refname)"),
                lit("--"),
                lit(PROBE_PREFIX).push(STAR),
            ),
        ),
    ) {
        (s1, Err(e)) => (s1, Err(e)),
        (s1, Ok(out)) => if out.ok() {
            purge_from(s1, root, split(out.stdout, LF), seq![], 0)
        } else {
            (
                s1,
                Err(
                    detailed(
                        failure("cannot enumerate leftover publication probe refs"@),
                        escape(out.stderr),
                    ),
                ),
            )
        },
    }
}

/// Deletes every probe ref that an interrupted run left behind, and names them.
pub fn purge_probe_refs<R: GitRunner + ?Sized>(runner: &mut R, grove: &Grove) -> (r: Result<
    Vec<Vec<u8>>,
>)
    ensures
        (final(runner).session(), list_outcome(r)) == purge_run(
            old(runner).session(),
            grove.root@,
        ),
{
    let mut pattern = bytes_of(PROBE_PREFIX);
    pattern.push(STAR);
    let output = runner.run(
        Invocation::new().git_dir(grove.bare_dir().as_slice()).word("for-each-ref").word(
            "--format=%(refname)",
        ).word("--").arg(pattern.as_slice()),
    )?;
    if !output.ok() {
        return Err(
            failure_error("cannot enumerate leftover publication probe refs").with_detail(
                escaped(output.stderr.as_slice()),
            ),
        );
    }
    let lines = split_on(output.stdout.as_slice(), LF);
    let ghost all = views(lines@);
    let mut purged: Vec<Vec<u8>> = Vec::new();
    let mut i: usize = 0;
    proof {
        assert(all.len() == lines@.len());
        assert(views(purged@) =~= seq![]);
    }
    while i < lines.len()
        invariant
            i <= lines.len(),
            all == views(lines@),
            all.len() == lines@.len(),
            purge_run(old(runner).session(), grove.root@) == purge_from(
                runner.session(),
                grove.root@,
                all,
                views(purged@),
                i as int,
            ),
        decreases lines.len() - i,
    {
        let line = lines[i].as_slice();
        proof {
            assert(all[i as int] == line@);
        }
        if line.len() > 0 {
            if !has_prefix(line, PROBE_PREFIX.as_bytes()) {
                return Err(
                    failure_error(
                        "git listed a ref outside the publication probe namespace",
                    ).with_detail(escaped(line)),
                );
            }
            delete_probe_ref(runner, grove, line)?;
            purged.push(copied(line));
        }
        i = i + 1;
    }
    Ok(purged)
}

pub open spec fn probe_name(nonce: Seq<char>) -> Seq<u8> {
    lit(PROBE_PREFIX) + vstd::utf8::encode_utf8(nonce)
}

/// Fetching a branch by URL into the probe ref that `nonce` names.
pub open spec fn fetch_probe_run(
    s: Session,
    root: Seq<u8>,
    url: Seq<u8>,
    branch: Seq<u8>,
    nonce: Outcome<Seq<char>>,
) -> (Session, Outcome<Seq<u8>>) {
    match nonce {
        Err(e) => (s, Err(e)),
        Ok(n) => match step(
            s,
            invoke_in(
                bare_of(root),
                args10(
                    lit("fetch"),
                    lit("--atomic"),
                    lit("--no-tags"),
                    lit("--no-write-fetch-head"),
                    lit("--no-recurse-submodules"),
                    lit("--no-auto-maintenance"),
                    lit("--no-write-commit-graph"),
                    lit("--"),
                    url,
                    (lit("+refs/heads/") + branch).push(COLON) + probe_name(n),
                ),
            ),
        ) {
            (s1, Err(e)) => (s1, Err(e)),
            (s1, Ok(out)) => if out.ok() {
                (s1, Ok(probe_name(n)))
            } else {
                (
                    s1,
                    Err(
                        detailed(
                            failure(
                                "cannot inspect branch "@ + escape(branch)
                                    + " on the publication target"@,
                            ),
                            escape(out.stderr),
                        ),
                    ),
                )
            },
        },
    }
}

pub open spec fn probe_outcome(r: Result<ProbeRef>) -> Outcome<Seq<u8>> {
    match r {
        Ok(p) => Ok(p.name@),
        Err(e) => Err(e@),
    }
}

/// Fetches a branch by URL into the probe ref that `nonce` names, and touches nothing else.
pub fn fetch_probe_as<R: GitRunner + ?Sized>(
    runner: &mut R,
    grove: &Grove,
    url: &[u8],
    branch: &[u8],
    nonce: Result<String>,
) -> (r: Result<ProbeRef>)
    ensures
        (final(runner).session(), probe_outcome(r)) == fetch_probe_run(
            old(runner).session(),
            grove.root@,
            url@,
            branch@,
            nonce_outcome(nonce),
        ),
{
    let digits = nonce?;
    let name = prefixed(PROBE_PREFIX, digits.as_str().as_bytes());
    let mut source = prefixed("+refs/heads/", branch);
    source.push(COLON);
    let refspec = joined(source.as_slice(), name.as_slice());
    let output = runner.run(
        Invocation::new().git_dir(grove.bare_dir().as_slice()).word("fetch").word(
            "--atomic",
        ).word("--no-tags").word("--no-write-fetch-head").word("--no-recurse-submodules").word(
            "--no-auto-maintenance",
        ).word("--no-write-commit-graph").word("--").arg(url).arg(refspec.as_slice()),
    )?;
    if !output.ok() {
        return Err(
            GroveError::failure(
                text("cannot inspect branch ").concat(escaped(branch).as_str()).concat(
                    " on the publication target",
                ),
            ).with_detail(escaped(output.stderr.as_slice())),
        );
    }
    Ok(ProbeRef { name })
}

/// Fetches a branch by URL into a fresh probe ref. The target must advertise the branch.
pub fn fetch_probe<R: GitRunner + ?Sized>(
    runner: &mut R,
    grove: &Grove,
    url: &[u8],
    branch: &[u8],
) -> (r: Result<ProbeRef>)
    ensures
        exists|nonce: Outcome<Seq<char>>|
            possible_nonce(nonce) && (final(runner).session(), probe_outcome(r))
                == #[trigger] fetch_probe_run(
                old(runner).session(),
                grove.root@,
                url@,
                branch@,
                nonce,
            ),
{
    let nonce = hex_nonce();
    let ghost drawn = nonce_outcome(nonce);
    let r = fetch_probe_as(runner, grove, url, branch, nonce);
    proof {
        assert(possible_nonce(drawn));
    }
    r
}

// ------------------------------------------------------------------- ancestry

pub open spec fn ancestry_run(s: Session, root: Seq<u8>, candidate: Seq<u8>, descendant: Seq<u8>) -> (
    Session,
    Outcome<Ancestry>,
) {
    match step(
        s,
        invoke_in(
            bare_of(root),
            args5(
                lit("merge-base"),
                lit("--is-ancestor"),
                lit("--end-of-options"),
                candidate,
                descendant,
            ),
        ),
    ) {
        (s1, Err(e)) => (s1, Err(e)),
        (s1, Ok(out)) => if out.status == 0 {
            (s1, Ok(Ancestry::Ancestor))
        } else if out.status == 1 {
            (s1, Ok(Ancestry::NotAncestor))
        } else if out.status == 128 {
            (s1, Ok(Ancestry::MissingObject))
        } else {
            (
                s1,
                Err(
                    detailed(
                        failure(
                            "git merge-base --is-ancestor failed with exit status "@ + decimal(
                                out.status,
                            ),
                        ),
                        escape(out.stderr),
                    ),
                ),
            )
        },
    }
}

/// How `candidate` relates to `descendant`.
pub fn is_ancestor<R: GitRunner + ?Sized>(
    runner: &mut R,
    grove: &Grove,
    candidate: &[u8],
    descendant: &[u8],
) -> (r: Result<Ancestry>)
    ensures
        (final(runner).session(), plain(r)) == ancestry_run(
            old(runner).session(),
            grove.root@,
            candidate@,
            descendant@,
        ),
{
    let output = runner.run(
        Invocation::new().git_dir(grove.bare_dir().as_slice()).word("merge-base").word(
            "--is-ancestor",
        ).word("--end-of-options").arg(candidate).arg(descendant),
    )?;
    if output.status == 0 {
        Ok(Ancestry::Ancestor)
    } else if output.status == 1 {
        Ok(Ancestry::NotAncestor)
    } else if output.status == 128 {
        Ok(Ancestry::MissingObject)
    } else {
        Err(
            GroveError::failure(
                text("git merge-base --is-ancestor failed with exit status ").concat(
                    status_number(output.status).as_str(),
                ),
            ).with_detail(escaped(output.stderr.as_slice())),
        )
    }
}

} // verus!
