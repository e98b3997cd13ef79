//! Configure agents in a worktree: one that was asked for, or all that are recorded.
use vstd::prelude::*;
use crate::commands::setup::{
    begin_provisioning, conclude, conclude_run, existing_run, finish, finish_run, note_attempt,
    open_target_directory, open_target_run, prepare, prepare_run, protocol_for, protocol_text,
    provisioning_run, read_existing, target_for, with_attempt, write_config_run, write_merged,
    Agent, AgentNames, Merged, MergedView, NamesView, PreparedView, Provisioning,
    ProvisioningView, merged_view,
};
use crate::error::{plain, text_outcome, ErrorView, Result};
use crate::fsx::files::{FileSession, FileSystem};
use crate::fsx::write::{possible_draws, Draws};
use crate::git::config::Outcome;
use crate::git::runner::{GitRunner, Session};
use crate::grove::discover::Grove;
use crate::hooks::{group_for, Format, GroupView, HookGroup};

verus! {

/// Whether a function that merges a hook group into a file's contents may have made this of them.
pub open spec fn may_merge<M: Fn(Vec<u8>, Format, HookGroup) -> Merged>(
    merge: M,
    existing: Seq<u8>,
    format: Format,
    group: GroupView,
    merged: MergedView,
) -> bool {
    exists|bytes: Vec<u8>, g: HookGroup, made: Merged|
        bytes@ == existing && g@ == group && #[trigger] call_ensures(
            merge,
            (bytes, format, g),
            made,
        ) && merged_view(made) == merged
}

/// The hook group of an agent.
pub open spec fn agent_group(n: NamesView, a: Agent, executable: Seq<char>) -> GroupView {
    group_for(protocol_for(a), protocol_text(n, a), executable)
}

fn merge_into<M: Fn(Vec<u8>, Format, HookGroup) -> Merged>(
    merge: &M,
    existing: Vec<u8>,
    names: &AgentNames,
    agent: Agent,
    executable: &str,
) -> (r: Merged)
    requires
        forall|bytes: Vec<u8>, format: Format, g: HookGroup| #[trigger]
            call_requires(*merge, (bytes, format, g)),
    ensures
        may_merge(
            *merge,
            existing@,
            target_for(names@, agent).format,
            agent_group(names@, agent, executable@),
            merged_view(r),
        ),
{
    let format = agent.target(names).format;
    let group = agent.group(names, executable);
    let ghost (bytes, g) = (existing, group);
    let made = merge(existing, format, group);
    proof {
        assert(call_ensures(*merge, (bytes, format, g), made));
    }
    made
}

// ------------------------------------------------------------------------- one agent

/// Writing one agent's file, where `merged` is what is made of its contents.
pub open spec fn write_hook_run(
    f: FileSession,
    worktree: Seq<u8>,
    n: NamesView,
    a: Agent,
    merged: MergedView,
    d: Draws,
) -> (FileSession, Outcome<()>) {
    let t = target_for(n, a);
    match open_target_run(f, worktree, t) {
        (f1, Err(e)) => (f1, Err(e)),
        (f1, Ok(directory)) => match existing_run(f1, directory, t) {
            (f2, Err(e)) => (f2, Err(e)),
            (f2, Ok(_)) => write_config_run(f2, worktree, t, directory, merged, d),
        },
    }
}

/// The contents of one agent's file, where they can be read.
pub open spec fn hook_contents(f: FileSession, worktree: Seq<u8>, n: NamesView, a: Agent) -> Outcome<
    Seq<u8>,
> {
    let t = target_for(n, a);
    match open_target_run(f, worktree, t) {
        (f1, Err(e)) => Err(e),
        (f1, Ok(directory)) => existing_run(f1, directory, t).1,
    }
}

/// Whether this may have been made of contents, where there are any.
pub open spec fn may_merge_read<M: Fn(Vec<u8>, Format, HookGroup) -> Merged>(
    merge: M,
    existing: Outcome<Seq<u8>>,
    format: Format,
    group: GroupView,
    merged: MergedView,
) -> bool {
    existing is Ok ==> may_merge(merge, existing->Ok_0, format, group, merged)
}

/// Merges an agent's hook group into its file. What cannot be merged, and a link or anything but
/// a plain file in its place, is left as it is.
pub fn write_hook_config<
    F: FileSystem + ?Sized,
    M: Fn(Vec<u8>, Format, HookGroup) -> Merged,
>(
    files: &mut F,
    worktree_root: &[u8],
    names: &AgentNames,
    agent: Agent,
    executable: &str,
    merge: &M,
) -> (r: Result<()>)
    requires
        forall|bytes: Vec<u8>, format: Format, g: HookGroup| #[trigger]
            call_requires(*merge, (bytes, format, g)),
    ensures
        exists|merged: MergedView, d: Draws|
            possible_draws(d) && may_merge_read(
                *merge,
                hook_contents(old(files).files(), worktree_root@, names@, agent),
                target_for(names@, agent).format,
                agent_group(names@, agent, executable@),
                merged,
            ) && (final(files).files(), plain(r)) == #[trigger] write_hook_run(
                old(files).files(),
                worktree_root@,
                names@,
                agent,
                merged,
                d,
            ),
{
    let ghost f = files.files();
    let ghost none = Draws { created: Seq::empty(), linked: Seq::empty() };
    let ghost unmerged: MergedView = Err(Seq::empty());
    let target = agent.target(names);
    proof {
        assert(possible_draws(none));
    }
    let directory = match open_target_directory(files, worktree_root, &target) {
        Err(e) => {
            proof {
                assert((files.files(), Err::<(), ErrorView>(e@)) == write_hook_run(
                    f,
                    worktree_root@,
                    names@,
                    agent,
                    unmerged,
                    none,
                ));
            }
            return Err(e);
        },
        Ok(directory) => directory,
    };
    let existing = match read_existing(files, directory, &target) {
        Err(e) => {
            proof {
                assert((files.files(), Err::<(), ErrorView>(e@)) == write_hook_run(
                    f,
                    worktree_root@,
                    names@,
                    agent,
                    unmerged,
                    none,
                ));
            }
            return Err(e);
        },
        Ok(existing) => existing,
    };
    let ghost f2 = files.files();
    let merged = merge_into(merge, existing, names, agent, executable);
    let ghost m = merged_view(merged);
    let r = write_merged(files, worktree_root, &target, directory, merged);
    proof {
        let d = choose|d: Draws|
            possible_draws(d) && (files.files(), plain(r)) == #[trigger] write_config_run(
                f2,
                worktree_root@,
                target@,
                directory,
                m,
                d,
            );
        assert((files.files(), plain(r)) == write_hook_run(
            f,
            worktree_root@,
            names@,
            agent,
            m,
            d,
        ));
    }
    r
}

/// What was left open when an agent was configured: what was made of its file's contents, and the
/// names that were drawn for the two files.
pub struct Attempt {
    pub merged: MergedView,
    pub excluded: Draws,
    pub configured: Draws,
}

/// Configuring one agent in a worktree: nothing that is kept under version control may be in the
/// way, and the file is excluded from it before it is written.
pub open spec fn apply_run(
    s: Session,
    f: FileSession,
    root: Seq<u8>,
    worktree: Seq<u8>,
    n: NamesView,
    a: Agent,
    attempt: Attempt,
) -> (Session, FileSession, Outcome<()>) {
    let t = target_for(n, a);
    match prepare_run(s, f, worktree, t) {
        (s1, f1, Err(e)) => (s1, f1, Err(e)),
        (s1, f1, Ok(prepared)) => {
            let (f2, r) = finish_run(
                f1,
                root,
                worktree,
                t,
                prepared.directory,
                attempt.merged,
                attempt.excluded,
                attempt.configured,
            );
            (s1, f2, r)
        },
    }
}

/// Whether an agent's configuration may have been left open in this way.
pub open spec fn possible_attempt<M: Fn(Vec<u8>, Format, HookGroup) -> Merged>(
    merge: M,
    prepared: Outcome<PreparedView>,
    n: NamesView,
    a: Agent,
    executable: Seq<char>,
    attempt: Attempt,
) -> bool {
    &&& possible_draws(attempt.excluded)
    &&& possible_draws(attempt.configured)
    &&& prepared is Ok ==> may_merge(
        merge,
        prepared->Ok_0.existing,
        target_for(n, a).format,
        agent_group(n, a, executable),
        attempt.merged,
    )
}

/// Configures one agent in a worktree.
pub fn apply<
    R: GitRunner + ?Sized,
    F: FileSystem + ?Sized,
    M: Fn(Vec<u8>, Format, HookGroup) -> Merged,
>(
    runner: &mut R,
    files: &mut F,
    grove_root: &[u8],
    worktree_root: &[u8],
    names: &AgentNames,
    agent: Agent,
    executable: &str,
    merge: &M,
) -> (r: Result<()>)
    requires
        forall|bytes: Vec<u8>, format: Format, g: HookGroup| #[trigger]
            call_requires(*merge, (bytes, format, g)),
    ensures
        exists|attempt: Attempt|
            possible_attempt(
                *merge,
                prepare_run(
                    old(runner).session(),
                    old(files).files(),
                    worktree_root@,
                    target_for(names@, agent),
                ).2,
                names@,
                agent,
                executable@,
                attempt,
            ) && (final(runner).session(), final(files).files(), plain(r))
                == #[trigger] apply_run(
                old(runner).session(),
                old(files).files(),
                grove_root@,
                worktree_root@,
                names@,
                agent,
                attempt,
            ),
{
    let ghost (s, f) = (runner.session(), files.files());
    let target = agent.target(names);
    let prepared = match prepare(runner, files, worktree_root, &target) {
        Err(e) => {
            proof {
                let none = Draws { created: Seq::empty(), linked: Seq::empty() };
                let attempt = Attempt {
                    merged: Err(Seq::empty()),
                    excluded: none,
                    configured: none,
                };
                assert(possible_draws(none));
                assert((runner.session(), files.files(), Err::<(), ErrorView>(e@)) == apply_run(
                    s,
                    f,
                    grove_root@,
                    worktree_root@,
                    names@,
                    agent,
                    attempt,
                ));
            }
            return Err(e);
        },
        Ok(prepared) => prepared,
    };
    let ghost f1 = files.files();
    let directory = prepared.directory;
    let merged = merge_into(merge, prepared.existing, names, agent, executable);
    let ghost m = merged_view(merged);
    let r = finish(files, grove_root, worktree_root, &target, directory, merged);
    proof {
        let (excluded, configured) = choose|excluded: Draws, configured: Draws|
            possible_draws(excluded) && possible_draws(configured) && (files.files(), plain(r))
                == #[trigger] finish_run(
                f1,
                grove_root@,
                worktree_root@,
                target@,
                directory,
                m,
                excluded,
                configured,
            );
        let attempt = Attempt { merged: m, excluded, configured };
        assert((runner.session(), files.files(), plain(r)) == apply_run(
            s,
            f,
            grove_root@,
            worktree_root@,
            names@,
            agent,
            attempt,
        ));
    }
    r
}

/// Configuring an agent that was asked for, and recording it.
pub open spec fn setup_run(
    s: Session,
    f: FileSession,
    root: Seq<u8>,
    worktree: Seq<u8>,
    n: NamesView,
    a: Agent,
    attempt: Attempt,
) -> (Session, FileSession, Outcome<Seq<char>>) {
    match apply_run(s, f, root, worktree, n, a, attempt) {
        (s1, f1, Err(e)) => (s1, f1, Err(e)),
        (s1, f1, Ok(_)) => {
            let (s2, r) = conclude_run(s1, n, root, worktree, a);
            (s2, f1, r)
        },
    }
}

/// Configures an agent in a worktree, records it so that new worktrees are configured for it too,
/// and says what to do next.
pub fn run<
    R: GitRunner + ?Sized,
    F: FileSystem + ?Sized,
    M: Fn(Vec<u8>, Format, HookGroup) -> Merged,
>(
    runner: &mut R,
    files: &mut F,
    grove: &Grove,
    worktree_root: &[u8],
    names: &AgentNames,
    agent: Agent,
    executable: &str,
    merge: &M,
) -> (r: Result<String>)
    requires
        forall|bytes: Vec<u8>, format: Format, g: HookGroup| #[trigger]
            call_requires(*merge, (bytes, format, g)),
    ensures
        exists|attempt: Attempt|
            possible_attempt(
                *merge,
                prepare_run(
                    old(runner).session(),
                    old(files).files(),
                    worktree_root@,
                    target_for(names@, agent),
                ).2,
                names@,
                agent,
                executable@,
                attempt,
            ) && (final(runner).session(), final(files).files(), text_outcome(r))
                == #[trigger] setup_run(
                old(runner).session(),
                old(files).files(),
                grove.root@,
                worktree_root@,
                names@,
                agent,
                attempt,
            ),
{
    let ghost (s, f) = (runner.session(), files.files());
    let applied = apply(
        runner,
        files,
        grove.root.as_slice(),
        worktree_root,
        names,
        agent,
        executable,
        merge,
    );
    let ghost attempt = choose|attempt: Attempt|
        possible_attempt(
            *merge,
            prepare_run(s, f, worktree_root@, target_for(names@, agent)).2,
            names@,
            agent,
            executable@,
            attempt,
        ) && (runner.session(), files.files(), plain(applied)) == #[trigger] apply_run(
            s,
            f,
            grove.root@,
            worktree_root@,
            names@,
            agent,
            attempt,
        );
    let r = match applied {
        Err(e) => Err(e),
        Ok(_) => conclude(runner, grove, names, worktree_root, agent),
    };
    proof {
        assert((runner.session(), files.files(), text_outcome(r)) == setup_run(
            s,
            f,
            grove.root@,
            worktree_root@,
            names@,
            agent,
            attempt,
        ));
    }
    r
}

// ------------------------------------------------------------------------ every agent

/// Where provisioning stands: the sessions, and what is to be said of it.
pub type Provisioned = (Session, FileSession, ProvisioningView);

/// Where provisioning stands once the first `k` agents were tried. One that cannot be configured
/// does not keep the others from being tried.
pub open spec fn provisioned(
    start: Provisioned,
    root: Seq<u8>,
    worktree: Seq<u8>,
    n: NamesView,
    agents: Seq<Agent>,
    tries: Seq<Attempt>,
    k: int,
) -> Provisioned
    decreases k,
{
    if k <= 0 {
        start
    } else {
        let (s, f, p) = provisioned(start, root, worktree, n, agents, tries, k - 1);
        let (s1, f1, r) = apply_run(s, f, root, worktree, n, agents[k - 1], tries[k - 1]);
        (s1, f1, with_attempt(p, n, worktree, agents[k - 1], r))
    }
}

/// Whether the first `k` agents may have been tried in this way.
pub open spec fn possible_tries<M: Fn(Vec<u8>, Format, HookGroup) -> Merged>(
    merge: M,
    start: Provisioned,
    root: Seq<u8>,
    worktree: Seq<u8>,
    n: NamesView,
    executable: Seq<char>,
    agents: Seq<Agent>,
    tries: Seq<Attempt>,
    k: int,
) -> bool
    decreases k,
{
    k <= 0 || {
        let (s, f, p) = provisioned(start, root, worktree, n, agents, tries, k - 1);
        let a = agents[k - 1];
        &&& possible_tries(merge, start, root, worktree, n, executable, agents, tries, k - 1)
        &&& possible_attempt(
            merge,
            prepare_run(s, f, worktree, target_for(n, a)).2,
            n,
            a,
            executable,
            tries[k - 1],
        )
    }
}

proof fn lemma_tried_on<M: Fn(Vec<u8>, Format, HookGroup) -> Merged>(
    merge: M,
    start: Provisioned,
    root: Seq<u8>,
    worktree: Seq<u8>,
    n: NamesView,
    executable: Seq<char>,
    agents: Seq<Agent>,
    tries: Seq<Attempt>,
    more: Attempt,
    k: int,
)
    requires
        k <= tries.len(),
    ensures
        provisioned(start, root, worktree, n, agents, tries.push(more), k) == provisioned(
            start,
            root,
            worktree,
            n,
            agents,
            tries,
            k,
        ),
        possible_tries(
            merge,
            start,
            root,
            worktree,
            n,
            executable,
            agents,
            tries.push(more),
            k,
        ) == possible_tries(merge, start, root, worktree, n, executable, agents, tries, k),
    decreases k,
{
    if k > 0 {
        lemma_tried_on(
            merge,
            start,
            root,
            worktree,
            n,
            executable,
            agents,
            tries,
            more,
            k - 1,
        );
        assert(tries.push(more)[k - 1] == tries[k - 1]);
    }
}

/// Where provisioning begins: the agents that are recorded, and what is said before any is tried.
pub open spec fn first_said(
    s: Session,
    f: FileSession,
    n: NamesView,
    root: Seq<u8>,
    worktree: Seq<u8>,
) -> Provisioned {
    let (s1, (agents, said)) = provisioning_run(s, n, root, worktree);
    (s1, f, said)
}

/// Configures every recorded agent in a new worktree. There is no error: a worktree that is not
/// configured is still one, so whatever goes wrong is said and the next agent is tried.
pub fn provision<
    R: GitRunner + ?Sized,
    F: FileSystem + ?Sized,
    M: Fn(Vec<u8>, Format, HookGroup) -> Merged,
>(
    runner: &mut R,
    files: &mut F,
    grove: &Grove,
    worktree_root: &[u8],
    names: &AgentNames,
    executable: &str,
    merge: &M,
) -> (r: Provisioning)
    requires
        forall|bytes: Vec<u8>, format: Format, g: HookGroup| #[trigger]
            call_requires(*merge, (bytes, format, g)),
    ensures
        ({
            let (s, f) = (old(runner).session(), old(files).files());
            let agents = provisioning_run(s, names@, grove.root@, worktree_root@).1.0;
            let start = first_said(s, f, names@, grove.root@, worktree_root@);
            exists|tries: Seq<Attempt>|
                possible_tries(
                    *merge,
                    start,
                    grove.root@,
                    worktree_root@,
                    names@,
                    executable@,
                    agents,
                    tries,
                    agents.len() as int,
                ) && (final(runner).session(), final(files).files(), r@)
                    == #[trigger] provisioned(
                    start,
                    grove.root@,
                    worktree_root@,
                    names@,
                    agents,
                    tries,
                    agents.len() as int,
                )
        }),
{
    let ghost (s, f) = (runner.session(), files.files());
    let ghost root = grove.root@;
    let ghost start = first_said(s, f, names@, root, worktree_root@);
    let (agents, mut provisioning) = begin_provisioning(runner, grove, names, worktree_root);
    let ghost mut tries: Seq<Attempt> = Seq::empty();
    let mut i: usize = 0;
    while i < agents.len()
        invariant
            i <= agents.len(),
            tries.len() == i,
            root == grove.root@,
            forall|bytes: Vec<u8>, format: Format, g: HookGroup| #[trigger]
                call_requires(*merge, (bytes, format, g)),
            possible_tries(
                *merge,
                start,
                root,
                worktree_root@,
                names@,
                executable@,
                agents@,
                tries,
                i as int,
            ),
            (runner.session(), files.files(), provisioning@) == provisioned(
                start,
                root,
                worktree_root@,
                names@,
                agents@,
                tries,
                i as int,
            ),
        decreases agents.len() - i,
    {
        let ghost (s0, f0, p0) = (runner.session(), files.files(), provisioning@);
        let agent = agents[i];
        let applied = apply(
            runner,
            files,
            grove.root.as_slice(),
            worktree_root,
            names,
            agent,
            executable,
            merge,
        );
        let ghost attempt = choose|attempt: Attempt|
            possible_attempt(
                *merge,
                prepare_run(s0, f0, worktree_root@, target_for(names@, agent)).2,
                names@,
                agent,
                executable@,
                attempt,
            ) && (runner.session(), files.files(), plain(applied)) == #[trigger] apply_run(
                s0,
                f0,
                root,
                worktree_root@,
                names@,
                agent,
                attempt,
            );
        note_attempt(&mut provisioning, names, worktree_root, agent, applied);
        proof {
            lemma_tried_on(
                *merge,
                start,
                root,
                worktree_root@,
                names@,
                executable@,
                agents@,
                tries,
                attempt,
                i as int,
            );
            tries = tries.push(attempt);
            assert(tries[i as int] == attempt);
        }
        i = i + 1;
    }
    proof {
        let all = provisioning_run(s, names@, root, worktree_root@).1.0;
        assert(agents@ == all);
        assert(i == all.len());
        assert((runner.session(), files.files(), provisioning@) == provisioned(
            start,
            root,
            worktree_root@,
            names@,
            all,
            tries,
            all.len() as int,
        ));
    }
    provisioning
}

/// Every recorded agent is tried and spoken of once: there is one more line for each, whatever came
/// of the others, and what was said before stays.
pub proof fn every_recorded_agent_is_spoken_of(
    start: Provisioned,
    root: Seq<u8>,
    worktree: Seq<u8>,
    n: NamesView,
    agents: Seq<Agent>,
    tries: Seq<Attempt>,
    k: int,
)
    requires
        0 <= k,
    ensures
        ({
            let said = start.2;
            let p = provisioned(start, root, worktree, n, agents, tries, k).2;
            &&& p.configured.len() + p.warnings.len() == said.configured.len()
                + said.warnings.len() + k
            &&& said.configured.is_prefix_of(p.configured)
            &&& said.warnings.is_prefix_of(p.warnings)
        }),
    decreases k,
{
    if k > 0 {
        every_recorded_agent_is_spoken_of(start, root, worktree, n, agents, tries, k - 1);
    }
}

} // verus!
