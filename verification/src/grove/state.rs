//! The state of a worktree, from what Git and the file system say of it.
use vstd::prelude::*;
use crate::bytes::{
    copied, copied_opt, joined, lit, opt_view, prefixed, same, split, split_on, strip_prefix,
    strip_suffix, views, without_prefix, without_suffix, TAB,
};
use crate::error::{failure, failure_error, plain, GroveError, Result};
use crate::fsx::files::{
    ask_bytes, ask_facts, ask_found, bytes_step, facts_step, found_step, FailureKind, FileRequest,
    FileSession, FileSystem,
};
use crate::fsx::held::FileKind;
use crate::fsx::mountinfo::{parse_u64, parsed_u64};
use crate::git::config::{
    exit_error, exit_failure, one_line_of, required, required_step, show_ref_quietly,
    trim_one_line, Outcome,
};
use crate::git::fetch::{is_unborn, unborn};
use crate::git::runner::{
    args3, args4, invoke, invoke_in, step, GitRunner, Invocation, InvocationView, Session,
};
use crate::git::worktrees::{
    branch_upstream, upstream_run, RecordView, Upstream, UpstreamView, WorktreeRecord,
};
use crate::grove::discover::{bare_of, Grove};
use crate::path::{child, is_same_path, is_within, join_word, same_path, within};
use crate::text::{lossy, lossy_text, text};

verus! {

/// What a worktree is in.
#[derive(Clone, Copy, Debug, PartialEq, Eq, Structural)]
pub enum WorktreeState {
    Missing,
    Invalid,
    Locked,
    InProgress,
    Dirty,
    Unborn,
    Detached,
    NoUpstream,
    UpstreamGone,
    Behind,
    Ahead,
    Diverged,
    UpToDate,
    Blocked,
}

pub open spec fn state_text(s: WorktreeState) -> Seq<char> {
    match s {
        WorktreeState::Missing => "MISSING"@,
        WorktreeState::Invalid => "INVALID"@,
        WorktreeState::Locked => "LOCKED"@,
        WorktreeState::InProgress => "IN-PROGRESS"@,
        WorktreeState::Dirty => "DIRTY"@,
        WorktreeState::Unborn => "UNBORN"@,
        WorktreeState::Detached => "DETACHED"@,
        WorktreeState::NoUpstream => "NO-UPSTREAM"@,
        WorktreeState::UpstreamGone => "UPSTREAM-GONE"@,
        WorktreeState::Behind => "BEHIND"@,
        WorktreeState::Ahead => "AHEAD"@,
        WorktreeState::Diverged => "DIVERGED"@,
        WorktreeState::UpToDate => "UP-TO-DATE"@,
        WorktreeState::Blocked => "BLOCKED"@,
    }
}

/// Whether a worktree in this state leaves nothing for a person to decide after a sync.
pub open spec fn satisfied(s: WorktreeState) -> bool {
    match s {
        WorktreeState::UpToDate | WorktreeState::Ahead | WorktreeState::Unborn
        | WorktreeState::Detached | WorktreeState::NoUpstream => true,
        _ => false,
    }
}

impl WorktreeState {
    /// The word a person sees.
    pub fn word(self) -> (r: &'static str)
        ensures
            r@ == state_text(self),
    {
        match self {
            WorktreeState::Missing => "MISSING",
            WorktreeState::Invalid => "INVALID",
            WorktreeState::Locked => "LOCKED",
            WorktreeState::InProgress => "IN-PROGRESS",
            WorktreeState::Dirty => "DIRTY",
            WorktreeState::Unborn => "UNBORN",
            WorktreeState::Detached => "DETACHED",
            WorktreeState::NoUpstream => "NO-UPSTREAM",
            WorktreeState::UpstreamGone => "UPSTREAM-GONE",
            WorktreeState::Behind => "BEHIND",
            WorktreeState::Ahead => "AHEAD",
            WorktreeState::Diverged => "DIVERGED",
            WorktreeState::UpToDate => "UP-TO-DATE",
            WorktreeState::Blocked => "BLOCKED",
        }
    }

    /// Whether nothing is left for a person to decide after a sync.
    pub fn sync_is_satisfied(self) -> (r: bool)
        ensures
            r == satisfied(self),
    {
        match self {
            WorktreeState::UpToDate | WorktreeState::Ahead | WorktreeState::Unborn
            | WorktreeState::Detached | WorktreeState::NoUpstream => true,
            _ => false,
        }
    }
}

/// How a worktree's branch stands to its upstream.
#[derive(Debug)]
pub struct Tracking {
    pub upstream_ref: Vec<u8>,
    pub upstream_remote: Option<Vec<u8>>,
    pub head_oid: Option<Vec<u8>>,
    pub upstream_oid: Vec<u8>,
    pub ahead: u64,
    pub behind: u64,
}

pub struct TrackingView {
    pub upstream_ref: Seq<u8>,
    pub upstream_remote: Option<Seq<u8>>,
    pub head_oid: Option<Seq<u8>>,
    pub upstream_oid: Seq<u8>,
    pub ahead: u64,
    pub behind: u64,
}

impl View for Tracking {
    type V = TrackingView;

    open spec fn view(&self) -> TrackingView {
        TrackingView {
            upstream_ref: self.upstream_ref@,
            upstream_remote: opt_view(self.upstream_remote),
            head_oid: opt_view(self.head_oid),
            upstream_oid: self.upstream_oid@,
            ahead: self.ahead,
            behind: self.behind,
        }
    }
}

impl Tracking {
    /// A copy of it.
    pub fn copied(&self) -> (r: Tracking)
        ensures
            r@ == self@,
    {
        Tracking {
            upstream_ref: copied(self.upstream_ref.as_slice()),
            upstream_remote: copied_opt(&self.upstream_remote),
            head_oid: copied_opt(&self.head_oid),
            upstream_oid: copied(self.upstream_oid.as_slice()),
            ahead: self.ahead,
            behind: self.behind,
        }
    }
}

pub open spec fn opt_tracking(o: Option<Tracking>) -> Option<TrackingView> {
    match o {
        Some(t) => Some(t@),
        None => None,
    }
}

/// A worktree at one moment.
#[derive(Debug)]
pub struct Snapshot {
    pub record: WorktreeRecord,
    pub admin_dir: Option<Vec<u8>>,
    pub state: WorktreeState,
    pub dirty: bool,
    pub tracking: Option<Tracking>,
}

pub struct SnapshotView {
    pub record: RecordView,
    pub admin_dir: Option<Seq<u8>>,
    pub state: WorktreeState,
    pub dirty: bool,
    pub tracking: Option<TrackingView>,
}

impl View for Snapshot {
    type V = SnapshotView;

    open spec fn view(&self) -> SnapshotView {
        SnapshotView {
            record: self.record@,
            admin_dir: opt_view(self.admin_dir),
            state: self.state,
            dirty: self.dirty,
            tracking: opt_tracking(self.tracking),
        }
    }
}

impl Snapshot {
    /// A copy of it.
    pub fn copied(&self) -> (r: Snapshot)
        ensures
            r@ == self@,
    {
        let tracking = match &self.tracking {
            None => None,
            Some(t) => Some(t.copied()),
        };
        Snapshot {
            record: self.record.copied(),
            admin_dir: copied_opt(&self.admin_dir),
            state: self.state,
            dirty: self.dirty,
            tracking,
        }
    }
}

pub open spec fn snapshot_outcome(r: Result<Snapshot>) -> Outcome<SnapshotView> {
    match r {
        Ok(s) => Ok(s@),
        Err(e) => Err(e@),
    }
}

// ------------------------------------------------------------------- the place

/// What is at a worktree's path.
#[derive(Debug)]
pub enum WorktreeLocation {
    /// A worktree of this grove, and where Git keeps what is its own.
    Valid { admin_dir: Vec<u8> },
    Missing,
    Invalid,
}

pub enum LocationView {
    Valid { admin_dir: Seq<u8> },
    Missing,
    Invalid,
}

impl View for WorktreeLocation {
    type V = LocationView;

    open spec fn view(&self) -> LocationView {
        match self {
            WorktreeLocation::Valid { admin_dir } => LocationView::Valid { admin_dir: admin_dir@ },
            WorktreeLocation::Missing => LocationView::Missing,
            WorktreeLocation::Invalid => LocationView::Invalid,
        }
    }
}

pub open spec fn location_outcome(r: Result<WorktreeLocation>) -> Outcome<LocationView> {
    match r {
        Ok(l) => Ok(l@),
        Err(e) => Err(e@),
    }
}

/// The directory that a pointer file leads to.
pub open spec fn pointed(contents: Seq<u8>) -> Option<Seq<u8>> {
    match without_prefix(contents, lit("gitdir: ")) {
        None => None,
        Some(rest) => without_suffix(rest, lit("\n")),
    }
}

/// The directory that a pointer file leads to.
pub fn pointed_directory(contents: &[u8]) -> (r: Option<Vec<u8>>)
    ensures
        opt_view(r) == pointed(contents@),
{
    match strip_prefix(contents, "gitdir: ".as_bytes()) {
        None => None,
        Some(rest) => match strip_suffix(rest, "\n".as_bytes()) {
            None => None,
            Some(path) => Some(copied(path)),
        },
    }
}

/// Whether a directory is one of those in which Git keeps what is a linked worktree's own.
pub open spec fn administrative(root: Seq<u8>, admin: Seq<u8>) -> bool {
    let base = child(bare_of(root), lit("worktrees"));
    within(admin, base) && !same_path(admin, base)
}

/// Looking at a worktree's path: there must be a directory, with a pointer into the grove's own
/// administration, which points back.
pub open spec fn location_run(f: FileSession, root: Seq<u8>, path: Seq<u8>) -> (
    FileSession,
    Outcome<LocationView>,
) {
    match facts_step(f, FileRequest::Inspect(path)) {
        (f1, Err(e)) => if e.kind == FailureKind::NotFound {
            (f1, Ok(LocationView::Missing))
        } else {
            (f1, Err(failure("cannot inspect "@ + lossy_text(path) + ": "@ + e.text)))
        },
        (f1, Ok(facts)) => if facts.kind != FileKind::Directory {
            (f1, Ok(LocationView::Invalid))
        } else {
            match bytes_step(f1, FileRequest::Read(child(path, lit(".git")))) {
                (f2, Err(_)) => (f2, Ok(LocationView::Invalid)),
                (f2, Ok(contents)) => match pointed(contents) {
                    None => (f2, Ok(LocationView::Invalid)),
                    Some(admin) => if !administrative(root, admin) {
                        (f2, Ok(LocationView::Invalid))
                    } else {
                        match bytes_step(f2, FileRequest::Read(child(admin, lit("gitdir")))) {
                            (f3, Err(_)) => (f3, Ok(LocationView::Invalid)),
                            (f3, Ok(back)) => if back == child(path, lit(".git")) + lit("\n") {
                                (f3, Ok(LocationView::Valid { admin_dir: admin }))
                            } else {
                                (f3, Ok(LocationView::Invalid))
                            },
                        }
                    },
                },
            }
        },
    }
}

/// Looks at a worktree's path.
pub fn inspect_worktree<F: FileSystem + ?Sized>(files: &mut F, grove: &Grove, path: &[u8]) -> (r: Result<
    WorktreeLocation,
>)
    ensures
        (final(files).files(), location_outcome(r)) == location_run(
            old(files).files(),
            grove.root@,
            path@,
        ),
{
    match ask_facts(files, FileRequest::Inspect(copied(path))) {
        Err(e) => {
            if e.kind == FailureKind::NotFound {
                return Ok(WorktreeLocation::Missing);
            }
            return Err(
                GroveError::failure(
                    text("cannot inspect ").concat(lossy(path).as_str()).concat(": ").concat(
                        e.text.as_str(),
                    ),
                ),
            );
        },
        Ok(facts) => {
            if facts.kind != FileKind::Directory {
                return Ok(WorktreeLocation::Invalid);
            }
        },
    }
    let pointer = join_word(path, ".git");
    let contents = match ask_bytes(files, FileRequest::Read(copied(pointer.as_slice()))) {
        Err(_) => return Ok(WorktreeLocation::Invalid),
        Ok(contents) => contents,
    };
    let admin = match pointed_directory(contents.as_slice()) {
        None => return Ok(WorktreeLocation::Invalid),
        Some(admin) => admin,
    };
    let base = join_word(grove.bare_dir().as_slice(), "worktrees");
    if !is_within(admin.as_slice(), base.as_slice()) || is_same_path(
        admin.as_slice(),
        base.as_slice(),
    ) {
        return Ok(WorktreeLocation::Invalid);
    }
    let back = match ask_bytes(
        files,
        FileRequest::Read(join_word(admin.as_slice(), "gitdir")),
    ) {
        Err(_) => return Ok(WorktreeLocation::Invalid),
        Ok(back) => back,
    };
    if same(back.as_slice(), joined(pointer.as_slice(), "\n".as_bytes()).as_slice()) {
        Ok(WorktreeLocation::Valid { admin_dir: admin })
    } else {
        Ok(WorktreeLocation::Invalid)
    }
}

// ------------------------------------------------------------------ the status

/// What marks an operation in progress, by its number.
pub open spec fn marker(i: int) -> Seq<u8> {
    if i == 0 {
        lit("index.lock")
    } else if i == 1 {
        lit("HEAD.lock")
    } else if i == 2 {
        lit("MERGE_HEAD")
    } else if i == 3 {
        lit("rebase-merge")
    } else if i == 4 {
        lit("rebase-apply")
    } else if i == 5 {
        lit("CHERRY_PICK_HEAD")
    } else if i == 6 {
        lit("REVERT_HEAD")
    } else {
        lit("BISECT_LOG")
    }
}

pub const MARKERS: u64 = 8;

fn marker_name(i: u64) -> (r: &'static str)
    ensures
        lit(r) == marker(i as int),
{
    if i == 0 {
        "index.lock"
    } else if i == 1 {
        "HEAD.lock"
    } else if i == 2 {
        "MERGE_HEAD"
    } else if i == 3 {
        "rebase-merge"
    } else if i == 4 {
        "rebase-apply"
    } else if i == 5 {
        "CHERRY_PICK_HEAD"
    } else if i == 6 {
        "REVERT_HEAD"
    } else {
        "BISECT_LOG"
    }
}

/// Whether a mark of an operation in progress is there, looked for from the `i`th on.
pub open spec fn busy_from(f: FileSession, admin: Seq<u8>, i: int) -> (FileSession, bool)
    decreases MARKERS - i,
{
    if i >= MARKERS {
        (f, false)
    } else {
        match found_step(f, FileRequest::Exists(child(admin, marker(i)))) {
            (f1, found) => if found {
                (f1, true)
            } else {
                busy_from(f1, admin, i + 1)
            },
        }
    }
}

/// Whether an operation is in progress in a worktree.
pub fn is_busy<F: FileSystem + ?Sized>(files: &mut F, admin: &[u8]) -> (r: bool)
    ensures
        (final(files).files(), r) == busy_from(old(files).files(), admin@, 0),
{
    let mut i: u64 = 0;
    while i < MARKERS
        invariant
            i <= MARKERS,
            busy_from(old(files).files(), admin@, 0) == busy_from(files.files(), admin@, i as int),
        decreases MARKERS - i,
    {
        if ask_found(files, FileRequest::Exists(join_word(admin, marker_name(i)))) {
            return true;
        }
        i = i + 1;
    }
    false
}

/// What was found out about a worktree that is in its place.
#[derive(Debug)]
pub struct Status {
    pub busy: bool,
    pub dirty: bool,
    /// Whether the branch has an upstream that does not exist.
    pub gone: bool,
    pub tracking: Option<Tracking>,
}

pub struct StatusView {
    pub busy: bool,
    pub dirty: bool,
    pub gone: bool,
    pub tracking: Option<TrackingView>,
}

impl View for Status {
    type V = StatusView;

    open spec fn view(&self) -> StatusView {
        StatusView {
            busy: self.busy,
            dirty: self.dirty,
            gone: self.gone,
            tracking: opt_tracking(self.tracking),
        }
    }
}

pub open spec fn status_outcome(r: Result<Status>) -> Outcome<StatusView> {
    match r {
        Ok(s) => Ok(s@),
        Err(e) => Err(e@),
    }
}

/// Two numbers on a line: how far ahead and how far behind.
pub open spec fn counts_in(stdout: Seq<u8>) -> Outcome<(u64, u64)> {
    match one_line_of(stdout, "commit count"@) {
        Err(e) => Err(e),
        Ok(line) => {
            let fields = split(line, TAB);
            if fields.len() != 2 {
                Err(failure("git returned an invalid commit count"@))
            } else {
                match (parsed_u64(fields[0]), parsed_u64(fields[1])) {
                    (Some(ahead), Some(behind)) => Ok((ahead, behind)),
                    _ => Err(failure("git returned an invalid commit count"@)),
                }
            }
        },
    }
}

/// Reads how far ahead and how far behind.
pub fn parse_counts(stdout: Vec<u8>) -> (r: Result<(u64, u64)>)
    ensures
        plain(r) == counts_in(stdout@),
{
    let line = trim_one_line(stdout, "commit count")?;
    let fields = split_on(line.as_slice(), TAB);
    proof {
        assert(views(fields@).len() == fields@.len());
    }
    if fields.len() != 2 {
        return Err(failure_error("git returned an invalid commit count"));
    }
    proof {
        assert(views(fields@)[0] == fields@[0]@);
        assert(views(fields@)[1] == fields@[1]@);
    }
    match (parse_u64(fields[0].as_slice()), parse_u64(fields[1].as_slice())) {
        (Some(ahead), Some(behind)) => Ok((ahead, behind)),
        _ => Err(failure_error("git returned an invalid commit count")),
    }
}

pub open spec fn in_worktree(admin: Seq<u8>, path: Seq<u8>, args: Seq<Seq<u8>>) -> InvocationView {
    InvocationView { git_dir: Some(admin), work_tree: Some(path), ..invoke(args) }
}

/// How a branch stands to an upstream that it has: nothing where the upstream does not exist.
pub open spec fn tracking_run(
    s: Session,
    root: Seq<u8>,
    record: RecordView,
    admin: Seq<u8>,
    u: UpstreamView,
) -> (Session, Outcome<Option<TrackingView>>) {
    match step(s, show_ref_quietly(bare_of(root), u.full)) {
        (s1, Err(e)) => (s1, Err(e)),
        (s1, Ok(out)) => if out.status == 1 {
            (s1, Ok(None))
        } else if out.status != 0 {
            (s1, Err(exit_failure("show-ref --verify"@, out)))
        } else {
            match required_step(
                s1,
                invoke_in(
                    bare_of(root),
                    args4(lit("rev-parse"), lit("--verify"), lit("--end-of-options"), u.full),
                ),
                "rev-parse --verify"@,
            ) {
                (s2, Err(e)) => (s2, Err(e)),
                (s2, Ok(parsed)) => match one_line_of(parsed.stdout, "upstream object ID"@) {
                    Err(e) => (s2, Err(e)),
                    Ok(oid) => match required_step(
                        s2,
                        in_worktree(
                            admin,
                            record.path,
                            args4(
                                lit("rev-list"),
                                lit("--left-right"),
                                lit("--count"),
                                lit("HEAD...") + u.full,
                            ),
                        ),
                        "rev-list --left-right --count"@,
                    ) {
                        (s3, Err(e)) => (s3, Err(e)),
                        (s3, Ok(counted)) => match counts_in(counted.stdout) {
                            Err(e) => (s3, Err(e)),
                            Ok((ahead, behind)) => (
                                s3,
                                Ok(
                                    Some(
                                        TrackingView {
                                            upstream_ref: u.full,
                                            upstream_remote: u.remote,
                                            head_oid: record.head,
                                            upstream_oid: oid,
                                            ahead,
                                            behind,
                                        },
                                    ),
                                ),
                            ),
                        },
                    },
                },
            }
        },
    }
}

pub open spec fn tracking_outcome(r: Result<Option<Tracking>>) -> Outcome<Option<TrackingView>> {
    match r {
        Ok(t) => Ok(opt_tracking(t)),
        Err(e) => Err(e@),
    }
}

fn track<R: GitRunner + ?Sized>(
    runner: &mut R,
    grove: &Grove,
    record: &WorktreeRecord,
    admin: &[u8],
    upstream: Upstream,
) -> (r: Result<Option<Tracking>>)
    ensures
        (final(runner).session(), tracking_outcome(r)) == tracking_run(
            old(runner).session(),
            grove.root@,
            record@,
            admin@,
            upstream@,
        ),
{
    let bare = grove.bare_dir();
    let output = runner.run(
        Invocation::new().git_dir(bare.as_slice()).word("show-ref").word("--verify").word(
            "--quiet",
        ).arg(upstream.full.as_slice()),
    )?;
    if output.status == 1 {
        return Ok(None);
    }
    if output.status != 0 {
        return Err(exit_error("show-ref --verify", &output));
    }
    let parsed = required(
        runner,
        Invocation::new().git_dir(bare.as_slice()).word("rev-parse").word("--verify").word(
            "--end-of-options",
        ).arg(upstream.full.as_slice()),
        "rev-parse --verify",
    )?;
    let upstream_oid = trim_one_line(parsed.stdout, "upstream object ID")?;
    let range = prefixed("HEAD...", upstream.full.as_slice());
    let counted = required(
        runner,
        Invocation::new().git_dir(admin).work_tree(record.path.as_slice()).word("rev-list").word(
            "--left-right",
        ).word("--count").arg(range.as_slice()),
        "rev-list --left-right --count",
    )?;
    let (ahead, behind) = parse_counts(counted.stdout)?;
    Ok(
        Some(
            Tracking {
                upstream_ref: upstream.full,
                upstream_remote: upstream.remote,
                head_oid: copied_opt(&record.head),
                upstream_oid,
                ahead,
                behind,
            },
        ),
    )
}

pub open spec fn quiet(dirty: bool) -> StatusView {
    StatusView { busy: false, dirty, gone: false, tracking: None }
}

/// The status of a worktree that is in its place. While an operation is in progress nothing
/// more is asked.
pub open spec fn status_run(
    s: Session,
    f: FileSession,
    root: Seq<u8>,
    record: RecordView,
    admin: Seq<u8>,
) -> (Session, FileSession, Outcome<StatusView>) {
    let (f1, busy) = busy_from(f, admin, 0);
    if busy {
        (s, f1, Ok(StatusView { busy: true, dirty: false, gone: false, tracking: None }))
    } else {
        match required_step(
            s,
            in_worktree(
                admin,
                record.path,
                args3(lit("status"), lit("--porcelain"), lit("-z")),
            ),
            "status --porcelain -z"@,
        ) {
            (s1, Err(e)) => (s1, f1, Err(e)),
            (s1, Ok(out)) => {
                let (s2, r) = branch_status_run(s1, root, record, admin, out.stdout.len() > 0);
                (s2, f1, r)
            },
        }
    }
}

pub open spec fn branch_status_run(
    s: Session,
    root: Seq<u8>,
    record: RecordView,
    admin: Seq<u8>,
    dirty: bool,
) -> (Session, Outcome<StatusView>) {
    match record.branch {
        None => (s, Ok(quiet(dirty))),
        Some(branch) => if unborn(record) {
            (s, Ok(quiet(dirty)))
        } else {
            match upstream_run(s, root, branch) {
                (s1, Err(e)) => (s1, Err(e)),
                (s1, Ok(None)) => (s1, Ok(quiet(dirty))),
                (s1, Ok(Some(u))) => match tracking_run(s1, root, record, admin, u) {
                    (s2, Err(e)) => (s2, Err(e)),
                    (s2, Ok(tracking)) => (
                        s2,
                        Ok(StatusView { busy: false, dirty, gone: tracking is None, tracking }),
                    ),
                },
            }
        },
    }
}

/// The status of a worktree that is in its place.
pub fn status_at<R: GitRunner + ?Sized, F: FileSystem + ?Sized>(
    runner: &mut R,
    files: &mut F,
    grove: &Grove,
    record: &WorktreeRecord,
    admin: &[u8],
) -> (r: Result<Status>)
    ensures
        (final(runner).session(), final(files).files(), status_outcome(r)) == status_run(
            old(runner).session(),
            old(files).files(),
            grove.root@,
            record@,
            admin@,
        ),
{
    if is_busy(files, admin) {
        return Ok(Status { busy: true, dirty: false, gone: false, tracking: None });
    }
    let output = required(
        runner,
        Invocation::new().git_dir(admin).work_tree(record.path.as_slice()).word("status").word(
            "--porcelain",
        ).word("-z"),
        "status --porcelain -z",
    )?;
    let dirty = output.stdout.len() > 0;
    let branch = match &record.branch {
        None => return Ok(Status { busy: false, dirty, gone: false, tracking: None }),
        Some(branch) => branch,
    };
    if is_unborn(record) {
        return Ok(Status { busy: false, dirty, gone: false, tracking: None });
    }
    match branch_upstream(runner, grove, branch.as_slice())? {
        None => Ok(Status { busy: false, dirty, gone: false, tracking: None }),
        Some(upstream) => {
            let tracking = track(runner, grove, record, admin, upstream)?;
            let gone = tracking.is_none();
            Ok(Status { busy: false, dirty, gone, tracking })
        },
    }
}

// -------------------------------------------------------------- classification

/// What a status comes to, for a worktree that is in its place and not locked.
pub open spec fn status_state(record: RecordView, s: StatusView) -> WorktreeState {
    if s.busy {
        WorktreeState::InProgress
    } else if s.dirty {
        WorktreeState::Dirty
    } else if record.branch is None {
        WorktreeState::Detached
    } else if unborn(record) {
        WorktreeState::Unborn
    } else if s.gone {
        WorktreeState::UpstreamGone
    } else {
        match s.tracking {
            None => WorktreeState::NoUpstream,
            Some(t) => if t.ahead > 0 && t.behind > 0 {
                WorktreeState::Diverged
            } else if t.ahead > 0 {
                WorktreeState::Ahead
            } else if t.behind > 0 {
                WorktreeState::Behind
            } else {
                WorktreeState::UpToDate
            },
        }
    }
}

/// The state of a worktree. What is wrong with its place comes first, then a lock, then what
/// Git says.
pub open spec fn classified(
    record: RecordView,
    location: LocationView,
    status: Option<StatusView>,
) -> SnapshotView {
    match location {
        LocationView::Missing => SnapshotView {
            record,
            admin_dir: None,
            state: WorktreeState::Missing,
            dirty: false,
            tracking: None,
        },
        LocationView::Invalid => SnapshotView {
            record,
            admin_dir: None,
            state: WorktreeState::Invalid,
            dirty: false,
            tracking: None,
        },
        LocationView::Valid { admin_dir } => match status {
            None => SnapshotView {
                record,
                admin_dir: Some(admin_dir),
                state: WorktreeState::Missing,
                dirty: false,
                tracking: None,
            },
            Some(s) => SnapshotView {
                record,
                admin_dir: Some(admin_dir),
                state: if record.locked is Some {
                    WorktreeState::Locked
                } else {
                    status_state(record, s)
                },
                dirty: s.dirty,
                tracking: s.tracking,
            },
        },
    }
}

fn state_of(record: &WorktreeRecord, status: &Status) -> (r: WorktreeState)
    ensures
        r == status_state(record@, status@),
{
    if status.busy {
        WorktreeState::InProgress
    } else if status.dirty {
        WorktreeState::Dirty
    } else if record.branch.is_none() {
        WorktreeState::Detached
    } else if is_unborn(record) {
        WorktreeState::Unborn
    } else if status.gone {
        WorktreeState::UpstreamGone
    } else {
        match &status.tracking {
            None => WorktreeState::NoUpstream,
            Some(t) => if t.ahead > 0 && t.behind > 0 {
                WorktreeState::Diverged
            } else if t.ahead > 0 {
                WorktreeState::Ahead
            } else if t.behind > 0 {
                WorktreeState::Behind
            } else {
                WorktreeState::UpToDate
            },
        }
    }
}

pub open spec fn opt_status(o: Option<Status>) -> Option<StatusView> {
    match o {
        Some(s) => Some(s@),
        None => None,
    }
}

/// Classifies a worktree.
pub fn classify(record: WorktreeRecord, location: WorktreeLocation, status: Option<Status>) -> (r:
    Snapshot)
    ensures
        r@ == classified(record@, location@, opt_status(status)),
{
    match location {
        WorktreeLocation::Missing => Snapshot {
            record,
            admin_dir: None,
            state: WorktreeState::Missing,
            dirty: false,
            tracking: None,
        },
        WorktreeLocation::Invalid => Snapshot {
            record,
            admin_dir: None,
            state: WorktreeState::Invalid,
            dirty: false,
            tracking: None,
        },
        WorktreeLocation::Valid { admin_dir } => match status {
            None => Snapshot {
                record,
                admin_dir: Some(admin_dir),
                state: WorktreeState::Missing,
                dirty: false,
                tracking: None,
            },
            Some(s) => {
                let state = if record.locked.is_some() {
                    WorktreeState::Locked
                } else {
                    state_of(&record, &s)
                };
                Snapshot {
                    record,
                    admin_dir: Some(admin_dir),
                    state,
                    dirty: s.dirty,
                    tracking: s.tracking,
                }
            },
        },
    }
}

/// A worktree counts as behind only if it is in its place, clean, not locked, on a branch whose
/// upstream exists, and that branch has nothing the upstream has not and lacks something it has.
pub proof fn behind_means_clean_and_fast_forwardable(
    record: RecordView,
    location: LocationView,
    status: Option<StatusView>,
)
    requires
        classified(record, location, status).state == WorktreeState::Behind,
    ensures
        location is Valid,
        record.locked is None,
        record.branch is Some,
        status is Some,
        !status->Some_0.busy,
        !status->Some_0.dirty,
        classified(record, location, status).admin_dir is Some,
        classified(record, location, status).tracking is Some,
        classified(record, location, status).tracking->Some_0.ahead == 0,
        classified(record, location, status).tracking->Some_0.behind > 0,
{
}

} // verus!
