//! Which remotes a set of worktrees needs fetched, and fetching them.
use vstd::prelude::*;
use crate::bytes::{copied, lemma_views_push, lit, views};
use crate::error::{detailed, failure, failure_error, plain, ErrorView, Result};
use crate::git::config::Outcome;
use crate::git::runner::{args9, invoke_in, step, GitRunner, Invocation, Session};
use crate::git::worktrees::{
    branch_upstream, record_views, upstream_run, RecordView, WorktreeRecord,
};
use crate::grove::discover::{bare_of, Grove};
use crate::order::{sort_unique, sorted_set};
use crate::text::{escape, escaped};

verus! {

broadcast use lemma_views_push;

/// The remotes to fetch, in order.
#[derive(Debug)]
pub struct FetchPlan {
    pub remotes: Vec<Vec<u8>>,
}

/// Whether an object ID is the one of a branch without a commit.
pub open spec fn all_zeros(oid: Seq<u8>) -> bool {
    forall|i: int| 0 <= i < oid.len() ==> #[trigger] oid[i] == 0x30
}

/// Whether a worktree has a branch with no commit checked out.
pub open spec fn unborn(r: RecordView) -> bool {
    match r.head {
        Some(head) => all_zeros(head),
        None => false,
    }
}

/// The branches that the first `n` worktrees have checked out and that have a commit.
pub open spec fn born_branches(records: Seq<RecordView>, n: int) -> Seq<Seq<u8>>
    decreases n,
{
    if n <= 0 {
        seq![]
    } else if unborn(records[n - 1]) {
        born_branches(records, n - 1)
    } else {
        match records[n - 1].branch {
            Some(branch) => born_branches(records, n - 1).push(branch),
            None => born_branches(records, n - 1),
        }
    }
}

/// The remotes of the branches from `i` on, after those `found` so far.
pub open spec fn remotes_of(
    s: Session,
    root: Seq<u8>,
    branches: Seq<Seq<u8>>,
    found: Seq<Seq<u8>>,
    i: int,
) -> (Session, Outcome<Seq<Seq<u8>>>)
    decreases branches.len() - i,
{
    if i >= branches.len() {
        (s, Ok(sorted_set(found)))
    } else {
        match upstream_run(s, root, branches[i]) {
            (s1, Err(e)) => (s1, Err(e)),
            (s1, Ok(upstream)) => match upstream {
                Some(u) => match u.remote {
                    Some(remote) => remotes_of(s1, root, branches, found.push(remote), i + 1),
                    None => remotes_of(s1, root, branches, found, i + 1),
                },
                None => remotes_of(s1, root, branches, found, i + 1),
            },
        }
    }
}

/// Planning the fetch: one upstream query for each branch, in order.
pub open spec fn plan_run(s: Session, root: Seq<u8>, records: Seq<RecordView>) -> (
    Session,
    Outcome<Seq<Seq<u8>>>,
) {
    remotes_of(
        s,
        root,
        sorted_set(born_branches(records, records.len() as int)),
        seq![],
        0,
    )
}

pub open spec fn plan_outcome(r: Result<FetchPlan>) -> Outcome<Seq<Seq<u8>>> {
    match r {
        Ok(p) => Ok(views(p.remotes@)),
        Err(e) => Err(e@),
    }
}

pub open spec fn fetch_one(bare: Seq<u8>, remote: Seq<u8>) -> crate::git::runner::InvocationView {
    invoke_in(
        bare,
        args9(
            lit("fetch"),
            lit("--atomic"),
            lit("--prune"),
            lit("--no-prune-tags"),
            lit("--no-recurse-submodules"),
            lit("--no-auto-maintenance"),
            lit("--no-write-commit-graph"),
            lit("--"),
            remote,
        ),
    )
}

/// Fetching the remotes from `i` on, one child each, up to the first failure.
pub open spec fn fetch_from(s: Session, root: Seq<u8>, remotes: Seq<Seq<u8>>, i: int) -> (
    Session,
    Outcome<()>,
)
    decreases remotes.len() - i,
{
    if i >= remotes.len() {
        (s, Ok(()))
    } else {
        match step(s, fetch_one(bare_of(root), remotes[i])) {
            (s1, Err(e)) => (s1, Err(e)),
            (s1, Ok(out)) => if out.ok() {
                fetch_from(s1, root, remotes, i + 1)
            } else {
                (s1, Err(detailed(failure("git fetch for sync failed"@), escape(out.stderr))))
            },
        }
    }
}

/// A plan names no remote twice and names them in order.
pub proof fn planned_remotes_are_ordered(s: Session, root: Seq<u8>, records: Seq<RecordView>)
    requires
        plan_run(s, root, records).1 is Ok,
    ensures
        crate::order::increasing(plan_run(s, root, records).1->Ok_0),
{
    lemma_remotes_increasing(
        s,
        root,
        sorted_set(born_branches(records, records.len() as int)),
        seq![],
        0,
    );
}

proof fn lemma_remotes_increasing(
    s: Session,
    root: Seq<u8>,
    branches: Seq<Seq<u8>>,
    found: Seq<Seq<u8>>,
    i: int,
)
    requires
        remotes_of(s, root, branches, found, i).1 is Ok,
    ensures
        crate::order::increasing(remotes_of(s, root, branches, found, i).1->Ok_0),
    decreases branches.len() - i,
{
    if i >= branches.len() {
        crate::order::sorted_set_is_ordered_and_complete(found);
    } else {
        let (s1, r) = upstream_run(s, root, branches[i]);
        match r->Ok_0 {
            Some(u) => match u.remote {
                Some(remote) => lemma_remotes_increasing(
                    s1,
                    root,
                    branches,
                    found.push(remote),
                    i + 1,
                ),
                None => lemma_remotes_increasing(s1, root, branches, found, i + 1),
            },
            None => lemma_remotes_increasing(s1, root, branches, found, i + 1),
        }
    }
}

/// Worktrees that are detached or unborn contribute nothing: Git is not even asked.
pub proof fn branchless_worktrees_need_no_fetch(s: Session, root: Seq<u8>, records: Seq<RecordView>)
    requires
        forall|i: int|
            0 <= i < records.len() ==> unborn(#[trigger] records[i]) || records[i].branch is None,
    ensures
        plan_run(s, root, records) == (s, Ok::<Seq<Seq<u8>>, ErrorView>(seq![])),
{
    lemma_no_branches(records, records.len() as int);
}

proof fn lemma_no_branches(records: Seq<RecordView>, n: int)
    requires
        n <= records.len(),
        forall|i: int|
            0 <= i < records.len() ==> unborn(#[trigger] records[i]) || records[i].branch is None,
    ensures
        born_branches(records, n) == Seq::<Seq<u8>>::empty(),
    decreases n,
{
    if n > 0 {
        lemma_no_branches(records, n - 1);
        assert(unborn(records[n - 1]) || records[n - 1].branch is None);
    }
}

fn is_all_zeros(oid: &[u8]) -> (r: bool)
    ensures
        r == all_zeros(oid@),
{
    let mut i: usize = 0;
    while i < oid.len()
        invariant
            i <= oid.len(),
            forall|j: int| 0 <= j < i ==> #[trigger] oid@[j] == 0x30,
        decreases oid.len() - i,
    {
        if oid[i] != 0x30 {
            return false;
        }
        i = i + 1;
    }
    true
}

pub(crate) fn is_unborn(record: &WorktreeRecord) -> (r: bool)
    ensures
        r == unborn(record@),
{
    match &record.head {
        None => false,
        Some(head) => is_all_zeros(head.as_slice()),
    }
}

impl FetchPlan {
    /// Plans to fetch the remotes that the worktrees' branches are fetched from.
    pub fn from_records<R: GitRunner + ?Sized>(
        runner: &mut R,
        grove: &Grove,
        records: &Vec<WorktreeRecord>,
    ) -> (r: Result<FetchPlan>)
        ensures
            (final(runner).session(), plan_outcome(r)) == plan_run(
                old(runner).session(),
                grove.root@,
                record_views(records@),
            ),
    {
        let ghost all = record_views(records@);
        let mut collected: Vec<Vec<u8>> = Vec::new();
        let mut i: usize = 0;
        proof {
            assert(all.len() == records@.len());
            assert(views(collected@) =~= seq![]);
        }
        while i < records.len()
            invariant
                i <= records.len(),
                all == record_views(records@),
                runner.session() == old(runner).session(),
                views(collected@) == born_branches(all, i as int),
            decreases records.len() - i,
        {
            proof {
                assert(all[i as int] == records@[i as int]@);
            }
            if !is_unborn(&records[i]) {
                match &records[i].branch {
                    Some(branch) => {
                        collected.push(copied(branch.as_slice()));
                    },
                    None => {},
                }
            }
            i = i + 1;
        }
        let branches = sort_unique(&collected);
        let ghost names = views(branches@);
        let mut found: Vec<Vec<u8>> = Vec::new();
        let mut k: usize = 0;
        proof {
            assert(names.len() == branches@.len());
            assert(views(found@) =~= seq![]);
        }
        while k < branches.len()
            invariant
                k <= branches.len(),
                names == views(branches@),
                names.len() == branches@.len(),
                plan_run(old(runner).session(), grove.root@, record_views(records@)) == remotes_of(
                    runner.session(),
                    grove.root@,
                    names,
                    views(found@),
                    k as int,
                ),
            decreases branches.len() - k,
        {
            proof {
                assert(names[k as int] == branches@[k as int]@);
            }
            match branch_upstream(runner, grove, branches[k].as_slice())? {
                Some(upstream) => {
                    match upstream.remote {
                        Some(remote) => {
                            found.push(remote);
                        },
                        None => {},
                    }
                },
                None => {},
            }
            k = k + 1;
        }
        Ok(FetchPlan { remotes: sort_unique(&found) })
    }

    /// Fetches every planned remote, in order, up to the first failure.
    pub fn execute<R: GitRunner + ?Sized>(&self, runner: &mut R, grove: &Grove) -> (r: Result<()>)
        ensures
            (final(runner).session(), plain(r)) == fetch_from(
                old(runner).session(),
                grove.root@,
                views(self.remotes@),
                0,
            ),
    {
        let ghost all = views(self.remotes@);
        let mut i: usize = 0;
        proof {
            assert(all.len() == self.remotes@.len());
        }
        while i < self.remotes.len()
            invariant
                i <= self.remotes.len(),
                all == views(self.remotes@),
                all.len() == self.remotes@.len(),
                fetch_from(old(runner).session(), grove.root@, all, 0) == fetch_from(
                    runner.session(),
                    grove.root@,
                    all,
                    i as int,
                ),
            decreases self.remotes.len() - i,
        {
            proof {
                assert(all[i as int] == self.remotes@[i as int]@);
            }
            let output = runner.run(
                Invocation::new().git_dir(grove.bare_dir().as_slice()).word("fetch").word(
                    "--atomic",
                ).word("--prune").word("--no-prune-tags").word("--no-recurse-submodules").word(
                    "--no-auto-maintenance",
                ).word("--no-write-commit-graph").word("--").arg(self.remotes[i].as_slice()),
            )?;
            if !output.ok() {
                return Err(
                    failure_error("git fetch for sync failed").with_detail(
                        escaped(output.stderr.as_slice()),
                    ),
                );
            }
            i = i + 1;
        }
        Ok(())
    }
}

} // verus!
