//! The worktrees Git knows of, and the upstream of a branch.
use vstd::prelude::*;
use crate::bytes::{
    copied, copied_opt, is_lit, lemma_views_push, lit, opt_view, split, split_on, strip_prefix,
    views, without_prefix, LF, NUL,
};
use crate::error::{failure, failure_error, Result};
use crate::git::config::{exit_error, exit_failure, Outcome};
use crate::git::query::{branch_ref, branch_ref_of, worktree_list};
use crate::git::runner::{args4, invoke_in, step, GitRunner, Invocation, Session};
use crate::grove::discover::{bare_of, Grove};

verus! {

broadcast use lemma_views_push;

/// One worktree, as Git lists it.
#[derive(Debug)]
pub struct WorktreeRecord {
    pub path: Vec<u8>,
    pub head: Option<Vec<u8>>,
    pub branch: Option<Vec<u8>>,
    pub bare: bool,
    pub detached: bool,
    pub locked: Option<Vec<u8>>,
    pub prunable: Option<Vec<u8>>,
}

#[verifier::ext_equal]
pub struct RecordView {
    pub path: Seq<u8>,
    pub head: Option<Seq<u8>>,
    pub branch: Option<Seq<u8>>,
    pub bare: bool,
    pub detached: bool,
    pub locked: Option<Seq<u8>>,
    pub prunable: Option<Seq<u8>>,
}

impl View for WorktreeRecord {
    type V = RecordView;

    open spec fn view(&self) -> RecordView {
        RecordView {
            path: self.path@,
            head: opt_view(self.head),
            branch: opt_view(self.branch),
            bare: self.bare,
            detached: self.detached,
            locked: opt_view(self.locked),
            prunable: opt_view(self.prunable),
        }
    }
}

pub open spec fn record_views(list: Seq<WorktreeRecord>) -> Seq<RecordView> {
    list.map_values(|r: WorktreeRecord| r@)
}

pub broadcast proof fn lemma_record_views_push(list: Seq<WorktreeRecord>, r: WorktreeRecord)
    ensures
        #[trigger] record_views(list.push(r)) == record_views(list).push(r@),
{
    assert(record_views(list.push(r)) =~= record_views(list).push(r@));
}

pub open spec fn new_record(path: Seq<u8>) -> RecordView {
    RecordView {
        path,
        head: None,
        branch: None,
        bare: false,
        detached: false,
        locked: None,
        prunable: None,
    }
}

impl WorktreeRecord {
    /// A worktree of which only the path is known.
    pub fn at(path: &[u8]) -> (r: WorktreeRecord)
        ensures
            r@ == new_record(path@),
    {
        WorktreeRecord {
            path: copied(path),
            head: None,
            branch: None,
            bare: false,
            detached: false,
            locked: None,
            prunable: None,
        }
    }

    /// A copy of the record.
    pub fn copied(&self) -> (r: WorktreeRecord)
        ensures
            r@ == self@,
    {
        WorktreeRecord {
            path: copied(self.path.as_slice()),
            head: copied_opt(&self.head),
            branch: copied_opt(&self.branch),
            bare: self.bare,
            detached: self.detached,
            locked: copied_opt(&self.locked),
            prunable: copied_opt(&self.prunable),
        }
    }
}

/// A ref without the common prefix of local branches.
pub open spec fn short_branch(reference: Seq<u8>) -> Seq<u8> {
    match without_prefix(reference, lit("refs/heads/")) {
        Some(short) => short,
        None => reference,
    }
}

/// A record with one more attribute. An attribute that is not known changes nothing.
pub open spec fn with_attribute(r: RecordView, field: Seq<u8>) -> RecordView {
    match without_prefix(field, lit("HEAD ")) {
        Some(head) => RecordView { head: Some(head), ..r },
        None => match without_prefix(field, lit("branch ")) {
            Some(branch) => RecordView { branch: Some(short_branch(branch)), ..r },
            None => if field == lit("bare") {
                RecordView { bare: true, ..r }
            } else if field == lit("detached") {
                RecordView { detached: true, ..r }
            } else if field == lit("locked") {
                RecordView { locked: Some(seq![]), ..r }
            } else if field == lit("prunable") {
                RecordView { prunable: Some(seq![]), ..r }
            } else {
                match without_prefix(field, lit("locked ")) {
                    Some(reason) => RecordView { locked: Some(reason), ..r },
                    None => match without_prefix(field, lit("prunable ")) {
                        Some(reason) => RecordView { prunable: Some(reason), ..r },
                        None => r,
                    },
                }
            },
        },
    }
}

/// The records that the fields from `i` on describe, after those `done` and with one `open`.
/// An empty field ends a record.
pub open spec fn records_from(
    fields: Seq<Seq<u8>>,
    done: Seq<RecordView>,
    current: Option<RecordView>,
    i: int,
) -> Outcome<Seq<RecordView>>
    decreases fields.len() - i,
{
    if i >= fields.len() {
        match current {
            Some(r) => Ok(done.push(r)),
            None => Ok(done),
        }
    } else if fields[i].len() == 0 {
        match current {
            Some(r) => records_from(fields, done.push(r), None, i + 1),
            None => records_from(fields, done, None, i + 1),
        }
    } else {
        match (without_prefix(fields[i], lit("worktree ")), current) {
            (Some(_), Some(_)) => Err(
                failure("git returned a worktree record inside another"@),
            ),
            (Some(path), None) => records_from(fields, done, Some(new_record(path)), i + 1),
            (None, None) => Err(
                failure("git returned a worktree attribute before its path"@),
            ),
            (None, Some(r)) => records_from(
                fields,
                done,
                Some(with_attribute(r, fields[i])),
                i + 1,
            ),
        }
    }
}

pub open spec fn worktrees_run(s: Session, root: Seq<u8>) -> (Session, Outcome<Seq<RecordView>>) {
    match step(s, worktree_list(bare_of(root))) {
        (s1, Err(e)) => (s1, Err(e)),
        (s1, Ok(out)) => if out.ok() {
            (s1, records_from(split(out.stdout, NUL), seq![], None, 0))
        } else {
            (s1, Err(exit_failure("worktree list --porcelain -z"@, out)))
        },
    }
}

pub open spec fn records_outcome(r: Result<Vec<WorktreeRecord>>) -> Outcome<Seq<RecordView>> {
    match r {
        Ok(list) => Ok(record_views(list@)),
        Err(e) => Err(e@),
    }
}

fn add_attribute(r: WorktreeRecord, field: &[u8]) -> (out: WorktreeRecord)
    ensures
        out@ == with_attribute(r@, field@),
{
    let mut r = r;
    match strip_prefix(field, "HEAD ".as_bytes()) {
        Some(head) => {
            r.head = Some(copied(head));
            return r;
        },
        None => {},
    }
    match strip_prefix(field, "branch ".as_bytes()) {
        Some(branch) => {
            match strip_prefix(branch, "refs/heads/".as_bytes()) {
                Some(short) => {
                    r.branch = Some(copied(short));
                },
                None => {
                    r.branch = Some(copied(branch));
                },
            }
            return r;
        },
        None => {},
    }
    let none: Vec<u8> = Vec::new();
    proof {
        assert(none@ =~= seq![]);
    }
    if is_lit(field, "bare") {
        r.bare = true;
    } else if is_lit(field, "detached") {
        r.detached = true;
    } else if is_lit(field, "locked") {
        r.locked = Some(none);
    } else if is_lit(field, "prunable") {
        r.prunable = Some(none);
    } else {
        match strip_prefix(field, "locked ".as_bytes()) {
            Some(reason) => {
                r.locked = Some(copied(reason));
            },
            None => {
                match strip_prefix(field, "prunable ".as_bytes()) {
                    Some(reason) => {
                        r.prunable = Some(copied(reason));
                    },
                    None => {},
                }
            },
        }
    }
    r
}

pub open spec fn opt_record(o: Option<WorktreeRecord>) -> Option<RecordView> {
    match o {
        Some(r) => Some(r@),
        None => None,
    }
}

/// Reads a NUL-delimited worktree listing.
pub fn parse_worktrees(stdout: &[u8]) -> (r: Result<Vec<WorktreeRecord>>)
    ensures
        records_outcome(r) == records_from(split(stdout@, NUL), seq![], None, 0),
{
    broadcast use lemma_record_views_push;

    let fields = split_on(stdout, NUL);
    let ghost all = views(fields@);
    let mut done: Vec<WorktreeRecord> = Vec::new();
    let mut current: Option<WorktreeRecord> = None;
    let mut i: usize = 0;
    proof {
        assert(all.len() == fields@.len());
        assert(record_views(done@) =~= seq![]);
    }
    while i < fields.len()
        invariant
            i <= fields.len(),
            all == views(fields@),
            all.len() == fields@.len(),
            records_from(split(stdout@, NUL), seq![], None, 0) == records_from(
                all,
                record_views(done@),
                opt_record(current),
                i as int,
            ),
        decreases fields.len() - i,
    {
        broadcast use lemma_record_views_push;

        let field = fields[i].as_slice();
        proof {
            assert(all[i as int] == field@);
        }
        if field.len() == 0 {
            match current {
                Some(r) => {
                    done.push(r);
                },
                None => {},
            }
            current = None;
        } else {
            match strip_prefix(field, "worktree ".as_bytes()) {
                Some(path) => {
                    if current.is_some() {
                        return Err(
                            failure_error("git returned a worktree record inside another"),
                        );
                    }
                    current = Some(WorktreeRecord::at(path));
                },
                None => {
                    match current {
                        None => {
                            return Err(
                                failure_error(
                                    "git returned a worktree attribute before its path",
                                ),
                            );
                        },
                        Some(r) => {
                            current = Some(add_attribute(r, field));
                        },
                    }
                },
            }
        }
        i = i + 1;
    }
    match current {
        Some(r) => {
            done.push(r);
        },
        None => {},
    }
    Ok(done)
}

/// Lists every worktree of the grove, the bare repository among them.
pub fn worktrees<R: GitRunner + ?Sized>(runner: &mut R, grove: &Grove) -> (r: Result<
    Vec<WorktreeRecord>,
>)
    ensures
        (final(runner).session(), records_outcome(r)) == worktrees_run(
            old(runner).session(),
            grove.root@,
        ),
{
    let output = runner.run(
        Invocation::new().git_dir(grove.bare_dir().as_slice()).word("worktree").word("list").word(
            "--porcelain",
        ).word("-z"),
    )?;
    if !output.ok() {
        return Err(exit_error("worktree list --porcelain -z", &output));
    }
    parse_worktrees(output.stdout.as_slice())
}

// ------------------------------------------------------------------ upstreams

/// Where a branch is fetched from.
#[derive(Debug)]
pub struct Upstream {
    /// The full ref, such as `refs/remotes/origin/main`.
    pub full: Vec<u8>,
    /// Its short form.
    pub short: Vec<u8>,
    /// The remote it belongs to; none when the upstream is a local branch.
    pub remote: Option<Vec<u8>>,
}

pub struct UpstreamView {
    pub full: Seq<u8>,
    pub short: Seq<u8>,
    pub remote: Option<Seq<u8>>,
}

impl View for Upstream {
    type V = UpstreamView;

    open spec fn view(&self) -> UpstreamView {
        UpstreamView { full: self.full@, short: self.short@, remote: opt_view(self.remote) }
    }
}

/// What one answer says of a branch's upstream: three NUL-terminated fields on one line. A local
/// upstream has the remote `.`.
pub open spec fn upstream_in(stdout: Seq<u8>) -> Outcome<Option<UpstreamView>> {
    let fields = split(stdout, NUL);
    if stdout.len() == 0 {
        Ok(None)
    } else if fields.len() != 4 || fields[3] != seq![LF] {
        Err(failure("git returned an invalid upstream record"@))
    } else if fields[0].len() == 0 {
        Ok(None)
    } else {
        Ok(
            Some(
                UpstreamView {
                    full: fields[0],
                    short: fields[1],
                    remote: if fields[2].len() == 0 || fields[2] == lit(".") {
                        None
                    } else {
                        Some(fields[2])
                    },
                },
            ),
        )
    }
}

pub open spec fn upstream_run(s: Session, root: Seq<u8>, branch: Seq<u8>) -> (
    Session,
    Outcome<Option<UpstreamView>>,
) {
    match step(
        s,
        invoke_in(
            bare_of(root),
            args4(
                lit("for-each-ref"),
                lit("--format=%(upstream)%00%(upstream:short)%00%(upstream:remotename)%00"),
                lit("--"),
                branch_ref_of(branch),
            ),
        ),
    ) {
        (s1, Err(e)) => (s1, Err(e)),
        (s1, Ok(out)) => if out.ok() {
            (s1, upstream_in(out.stdout))
        } else {
            (s1, Err(exit_failure("for-each-ref"@, out)))
        },
    }
}

pub open spec fn upstream_outcome(r: Result<Option<Upstream>>) -> Outcome<Option<UpstreamView>> {
    match r {
        Ok(Some(u)) => Ok(Some(u@)),
        Ok(None) => Ok(None),
        Err(e) => Err(e@),
    }
}

/// Reads one upstream record.
pub fn parse_upstream(stdout: &[u8]) -> (r: Result<Option<Upstream>>)
    ensures
        upstream_outcome(r) == upstream_in(stdout@),
{
    if stdout.len() == 0 {
        return Ok(None);
    }
    let fields = split_on(stdout, NUL);
    let ghost all = views(fields@);
    proof {
        assert(all.len() == fields@.len());
    }
    if fields.len() != 4 {
        return Err(failure_error("git returned an invalid upstream record"));
    }
    proof {
        assert(all[0] == fields@[0]@ && all[1] == fields@[1]@);
        assert(all[2] == fields@[2]@ && all[3] == fields@[3]@);
        if fields@[3]@.len() == 1 {
            assert(fields@[3]@ =~= seq![fields@[3]@[0]]);
        }
        assert(seq![LF][0] == LF);
    }
    if fields[3].len() != 1 || fields[3][0] != LF {
        return Err(failure_error("git returned an invalid upstream record"));
    }
    if fields[0].len() == 0 {
        return Ok(None);
    }
    let remote = if fields[2].len() == 0 || is_lit(fields[2].as_slice(), ".") {
        None
    } else {
        Some(copied(fields[2].as_slice()))
    };
    Ok(
        Some(
            Upstream {
                full: copied(fields[0].as_slice()),
                short: copied(fields[1].as_slice()),
                remote,
            },
        ),
    )
}

/// The upstream of a local branch, if it has one.
pub fn branch_upstream<R: GitRunner + ?Sized>(
    runner: &mut R,
    grove: &Grove,
    branch: &[u8],
) -> (r: Result<Option<Upstream>>)
    ensures
        (final(runner).session(), upstream_outcome(r)) == upstream_run(
            old(runner).session(),
            grove.root@,
            branch@,
        ),
{
    let reference = branch_ref(branch);
    let output = runner.run(
        Invocation::new().git_dir(grove.bare_dir().as_slice()).word("for-each-ref").word(
            "--format=%(upstream)%00%(upstream:short)%00%(upstream:remotename)%00",
        ).word("--").arg(reference.as_slice()),
    )?;
    if !output.ok() {
        return Err(exit_error("for-each-ref", &output));
    }
    parse_upstream(output.stdout.as_slice())
}

} // verus!
