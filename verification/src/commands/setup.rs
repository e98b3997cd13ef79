//! Configure an agent's hook in a worktree, and provision new worktrees the same way.
use vstd::prelude::*;
use vstd::utf8::encode_utf8;
use crate::bytes::{
    bytes_of, copied, is_lit, lemma_views_push, lit, opt_slice, opt_view, prefixed, same, views,
    SLASH,
};
use crate::error::{
    bytes_outcome, detailed, error_text, failure, needs_decision, plain, text_outcome, usage,
    ErrorView, ExitClass, GroveError, Result,
};
use crate::fsx::files::{
    ask_bytes, ask_facts, ask_handle, bytes_step, do_request, done_step, facts_step, handle_step,
    FailureKind, FailureView, FileRequest, FileSession, FileSystem, IoFailure,
};
use crate::fsx::held::FileKind;
use crate::fsx::looking::looks;
use crate::fsx::write::{
    possible_draws, write_atomic, write_atomic_in, write_in_run, write_run, Draws, TempStrategy,
};
use crate::git::config::{
    config_values, config_values_run, exit_error, exit_failure, get_all, one_line_of, set_config,
    set_config_run, trim_one_line, Outcome,
};
use crate::git::runner::{
    args2, args4, invoke, step, GitRunner, Invocation, InvocationView, Session,
};
use crate::git::worktrees::{record_views, worktrees, worktrees_run, RecordView, WorktreeRecord};
use crate::grove::discover::{config_of, Grove};
use crate::grove::layout::{relative_place, validate_relative_worktree_path};
use crate::grove::metadata::Metadata;
use crate::hooks::{add_exclude_entry, group_for, with_entry, Format, HookGroup, Protocol};
use crate::path::{child, is_same_path, join_path, join_word, same_path};
use crate::text::{
    lemma_joined_bytes, lemma_texts_push, lossy, lossy_text, same_text, text, text_is_shown_as_it_is,
    texts,
};

verus! {

broadcast use {lemma_views_push, lemma_texts_push};

/// An agent that can be configured. The first and the last read the same file.
#[derive(Clone, Copy, Debug, PartialEq, Eq, Structural)]
pub enum Agent {
    Claude,
    Codex,
    Copilot,
}

/// The name that the first agent goes by: as it is asked for on the command line and recorded in
/// a grove, and as it is shown to people.
#[derive(Debug)]
pub struct AgentNames {
    pub claude: String,
    pub claude_title: String,
}

pub struct NamesView {
    pub claude: Seq<char>,
    pub claude_title: Seq<char>,
}

impl View for AgentNames {
    type V = NamesView;

    open spec fn view(&self) -> NamesView {
        NamesView { claude: self.claude@, claude_title: self.claude_title@ }
    }
}

/// A byte, in upper case if it is a letter.
pub open spec fn upper(b: u8) -> u8 {
    if 0x61 <= b <= 0x7a {
        (b - 0x20) as u8
    } else {
        b
    }
}

/// The name under which the guide in a grove's root is linked to, for the first agent to find.
pub open spec fn link_of(n: NamesView) -> Seq<u8> {
    encode_utf8(n.claude).map_values(|b: u8| upper(b)) + lit(".md")
}

impl AgentNames {
    /// The name under which the guide in a grove's root is linked to.
    pub fn guide_link(&self) -> (r: Vec<u8>)
        ensures
            r@ == link_of(self@),
    {
        let name = self.claude.as_str().as_bytes();
        let ghost all = name@.map_values(|b: u8| upper(b));
        let mut out: Vec<u8> = Vec::new();
        let mut i: usize = 0;
        while i < name.len()
            invariant
                i <= name.len(),
                all == name@.map_values(|b: u8| upper(b)),
                out@ =~= all.take(i as int),
            decreases name.len() - i,
        {
            let b = name[i];
            out.push(
                if 0x61 <= b && b <= 0x7a {
                    b - 0x20
                } else {
                    b
                },
            );
            i = i + 1;
        }
        out.extend_from_slice(".md".as_bytes());
        proof {
            assert(all.take(i as int) =~= all);
        }
        out
    }
}

/// The one file that configures an agent's hooks, and how it is written.
#[derive(Debug)]
pub struct Target {
    pub relative_dir: Vec<u8>,
    pub relative_file: Vec<u8>,
    pub format: Format,
}

pub struct TargetView {
    pub dir: Seq<u8>,
    pub file: Seq<u8>,
    pub format: Format,
}

impl View for Target {
    type V = TargetView;

    open spec fn view(&self) -> TargetView {
        TargetView { dir: self.relative_dir@, file: self.relative_file@, format: self.format }
    }
}

/// The file's path, relative to a worktree.
pub open spec fn relative_of(t: TargetView) -> Seq<u8> {
    child(t.dir, t.file)
}

/// The line that keeps the file out of `git status`. It is anchored to the worktree, because
/// all worktrees share one exclude file.
pub open spec fn exclude_of(t: TargetView) -> Seq<u8> {
    lit("/") + relative_of(t)
}

impl Target {
    /// The file's path, relative to a worktree.
    pub fn relative_path(&self) -> (r: Vec<u8>)
        ensures
            r@ == relative_of(self@),
    {
        join_path(self.relative_dir.as_slice(), self.relative_file.as_slice())
    }

    /// The line that keeps the file out of `git status`.
    pub fn exclude_entry(&self) -> (r: Vec<u8>)
        ensures
            r@ == exclude_of(self@),
    {
        prefixed("/", self.relative_path().as_slice())
    }
}

pub open spec fn agent_text(n: NamesView, a: Agent) -> Seq<char> {
    match a {
        Agent::Claude => n.claude,
        Agent::Codex => "codex"@,
        Agent::Copilot => "copilot"@,
    }
}

/// The agent that a recorded value names.
pub open spec fn agent_named(n: NamesView, value: Seq<u8>) -> Option<Agent> {
    if value == encode_utf8(n.claude) {
        Some(Agent::Claude)
    } else if value == lit("codex") {
        Some(Agent::Codex)
    } else if value == lit("copilot") {
        Some(Agent::Copilot)
    } else {
        None
    }
}

pub open spec fn target_for(n: NamesView, a: Agent) -> TargetView {
    match a {
        Agent::Codex => TargetView {
            dir: lit(".codex"),
            file: lit("config.toml"),
            format: Format::Toml,
        },
        _ => TargetView {
            dir: lit(".") + encode_utf8(n.claude),
            file: lit("settings.local.json"),
            format: Format::Json,
        },
    }
}

pub open spec fn protocol_for(a: Agent) -> Protocol {
    match a {
        Agent::Codex => Protocol::Codex,
        _ => Protocol::ClaudeCompatible,
    }
}

pub open spec fn protocol_text(n: NamesView, a: Agent) -> Seq<char> {
    match a {
        Agent::Codex => "codex"@,
        _ => n.claude + "-compatible"@,
    }
}

impl Agent {
    /// The agent's name, as it is asked for and as it is recorded.
    pub fn as_str(self, names: &AgentNames) -> (r: &str)
        ensures
            r@ == agent_text(names@, self),
    {
        match self {
            Agent::Claude => names.claude.as_str(),
            Agent::Codex => "codex",
            Agent::Copilot => "copilot",
        }
    }

    /// The agent that a recorded value names, if it is one this program knows.
    pub fn parse(names: &AgentNames, value: &[u8]) -> (r: Option<Agent>)
        ensures
            r == agent_named(names@, value@),
    {
        if same(value, names.claude.as_str().as_bytes()) {
            Some(Agent::Claude)
        } else if is_lit(value, "codex") {
            Some(Agent::Codex)
        } else if is_lit(value, "copilot") {
            Some(Agent::Copilot)
        } else {
            None
        }
    }

    /// The file that configures the agent.
    pub fn target(self, names: &AgentNames) -> (r: Target)
        ensures
            r@ == target_for(names@, self),
    {
        match self {
            Agent::Claude | Agent::Copilot => Target {
                relative_dir: prefixed(".", names.claude.as_str().as_bytes()),
                relative_file: bytes_of("settings.local.json"),
                format: Format::Json,
            },
            Agent::Codex => Target {
                relative_dir: bytes_of(".codex"),
                relative_file: bytes_of("config.toml"),
                format: Format::Toml,
            },
        }
    }

    /// The hook group that the agent's file carries.
    pub fn group(self, names: &AgentNames, executable: &str) -> (r: HookGroup)
        ensures
            r@ == group_for(protocol_for(self), protocol_text(names@, self), executable@),
    {
        match self {
            Agent::Claude | Agent::Copilot => HookGroup::new(
                Protocol::ClaudeCompatible,
                text(names.claude.as_str()).concat("-compatible").as_str(),
                executable,
            ),
            Agent::Codex => HookGroup::new(Protocol::Codex, "codex", executable),
        }
    }
}

/// The protocol that goes by a word, as it is given to the guard on its command line.
pub open spec fn protocol_named(n: NamesView, word: Seq<u8>) -> Option<Protocol> {
    if word == lit("codex") {
        Some(Protocol::Codex)
    } else if word == encode_utf8(n.claude + "-compatible"@) {
        Some(Protocol::ClaudeCompatible)
    } else {
        None
    }
}

/// The protocol that goes by a word.
pub fn find_protocol(names: &AgentNames, word: &[u8]) -> (r: Option<Protocol>)
    ensures
        r == protocol_named(names@, word@),
{
    if is_lit(word, "codex") {
        Some(Protocol::Codex)
    } else if same(
        word,
        text(names.claude.as_str()).concat("-compatible").as_str().as_bytes(),
    ) {
        Some(Protocol::ClaudeCompatible)
    } else {
        None
    }
}

/// The guard finds the protocol that an agent's hook was written with.
pub proof fn protocols_read_back(n: NamesView, a: Agent)
    ensures
        protocol_named(n, encode_utf8(protocol_text(n, a))) == Some(protocol_for(a)),
{
    reveal_strlit("codex");
    reveal_strlit("-compatible");
    vstd::utf8::encode_utf8_decode_utf8(n.claude + "-compatible"@);
    vstd::utf8::encode_utf8_decode_utf8("codex"@);
    assert((n.claude + "-compatible"@).len() >= 11);
    assert("codex"@.len() == 5);
}

/// An agent is found only under its own name. Where the first one goes by none of the others', every
/// agent is found again under its own.
pub proof fn agents_read_back(n: NamesView, a: Agent, value: Seq<u8>)
    ensures
        agent_named(n, value) == Some(a) ==> value == encode_utf8(agent_text(n, a)),
        n.claude != "codex"@ && n.claude != "copilot"@ ==> (agent_named(n, value) == Some(a)
            <==> value == encode_utf8(agent_text(n, a))),
{
    reveal_strlit("codex");
    reveal_strlit("copilot");
    vstd::utf8::encode_utf8_decode_utf8(n.claude);
    vstd::utf8::encode_utf8_decode_utf8("codex"@);
    vstd::utf8::encode_utf8_decode_utf8("copilot"@);
    assert("codex"@.len() == 5);
    assert("copilot"@.len() == 7);
}

/// Codex has a file of its own, always in the same place. The other two agents share one.
pub proof fn agents_have_their_files(n: NamesView)
    ensures
        target_for(n, Agent::Codex).dir == lit(".codex"),
        target_for(n, Agent::Codex).file == lit("config.toml"),
        target_for(n, Agent::Codex).format == Format::Toml,
        relative_of(target_for(n, Agent::Codex)) == lit(".codex/config.toml"),
        exclude_of(target_for(n, Agent::Codex)) == lit("/.codex/config.toml"),
        target_for(n, Agent::Claude) == target_for(n, Agent::Copilot),
        target_for(n, Agent::Claude).dir == encode_utf8("."@ + n.claude),
        target_for(n, Agent::Claude).file == lit("settings.local.json"),
        target_for(n, Agent::Claude).format == Format::Json,
{
    lemma_joined_bytes("."@, n.claude);
    reveal_strlit(".codex");
    reveal_strlit("config.toml");
    reveal_strlit(".codex/config.toml");
    reveal_strlit("/.codex/config.toml");
    reveal_strlit("/");
    vstd::utf8::is_ascii_chars_encode_utf8(".codex"@);
    vstd::utf8::is_ascii_chars_encode_utf8("config.toml"@);
    vstd::utf8::is_ascii_chars_encode_utf8(".codex/config.toml"@);
    vstd::utf8::is_ascii_chars_encode_utf8("/.codex/config.toml"@);
    vstd::utf8::is_ascii_chars_encode_utf8("/"@);
    assert(relative_of(target_for(n, Agent::Codex)) =~= lit(".codex/config.toml"));
    assert(exclude_of(target_for(n, Agent::Codex)) =~= lit("/.codex/config.toml"));
}

/// What is said of Codex's file in a worktree names the file below the worktree, as both are
/// written.
pub proof fn codex_is_told_of_its_file(n: NamesView, worktree: Seq<char>)
    requires
        encode_utf8(worktree).len() > 0,
        encode_utf8(worktree).last() != SLASH,
    ensures
        lossy_text(child(encode_utf8(worktree), relative_of(target_for(n, Agent::Codex))))
            == worktree + "/.codex/config.toml"@,
{
    agents_have_their_files(n);
    reveal_strlit(".codex/config.toml");
    reveal_strlit("/.codex/config.toml");
    vstd::utf8::is_ascii_chars_encode_utf8(".codex/config.toml"@);
    vstd::utf8::is_ascii_chars_encode_utf8("/.codex/config.toml"@);
    lemma_joined_bytes(worktree, "/.codex/config.toml"@);
    text_is_shown_as_it_is(worktree + "/.codex/config.toml"@);
    assert(child(encode_utf8(worktree), lit(".codex/config.toml")) =~= encode_utf8(worktree) + lit(
        "/.codex/config.toml",
    ));
}

// ------------------------------------------------------------------- the policy

/// The key of a grove's configuration under which the agents are recorded that its worktrees
/// are provisioned for.
pub const POLICY_KEY: &'static str = "grove.hookAgent";

/// Whether some value names the agent.
pub open spec fn records(n: NamesView, values: Seq<Seq<u8>>, a: Agent) -> bool {
    exists|i: int| 0 <= i < values.len() && agent_named(n, #[trigger] values[i]) == Some(a)
}

/// The agent alone, if it is recorded.
pub open spec fn if_recorded(n: NamesView, values: Seq<Seq<u8>>, a: Agent) -> Seq<Agent> {
    if records(n, values, a) {
        Seq::empty().push(a)
    } else {
        Seq::empty()
    }
}

/// The agents that are recorded, each once, in their fixed order.
pub open spec fn recorded_agents(n: NamesView, values: Seq<Seq<u8>>) -> Seq<Agent> {
    if_recorded(n, values, Agent::Claude) + if_recorded(n, values, Agent::Codex) + if_recorded(
        n,
        values,
        Agent::Copilot,
    )
}

/// What the first `k` values name that is no agent of this program: each text once, in order.
pub open spec fn unknown_values(n: NamesView, values: Seq<Seq<u8>>, k: int) -> Seq<Seq<char>>
    decreases k,
{
    if k <= 0 {
        Seq::empty()
    } else {
        let before = unknown_values(n, values, k - 1);
        let shown = lossy_text(values[k - 1]);
        if agent_named(n, values[k - 1]) is None && !before.contains(shown) {
            before.push(shown)
        } else {
            before
        }
    }
}

pub type PolicyView = (Seq<Agent>, Seq<Seq<char>>);

/// Reading a grove's policy: the agents recorded, and what is recorded that is none.
pub open spec fn policy_run(s: Session, n: NamesView, root: Seq<u8>) -> (
    Session,
    Outcome<PolicyView>,
) {
    match config_values_run(s, config_of(root), lit(POLICY_KEY)) {
        (s1, Err(e)) => (s1, Err(e)),
        (s1, Ok(values)) => (
            s1,
            Ok((recorded_agents(n, values), unknown_values(n, values, values.len() as int))),
        ),
    }
}

pub open spec fn policy_outcome(r: Result<(Vec<Agent>, Vec<String>)>) -> Outcome<PolicyView> {
    match r {
        Ok(p) => Ok((p.0@, texts(p.1@))),
        Err(e) => Err(e@),
    }
}

/// The order in which agents are provisioned does not depend on the order they were recorded
/// in, nor on how often.
pub proof fn recorded_agents_do_not_depend_on_their_order(
    n: NamesView,
    a: Seq<Seq<u8>>,
    b: Seq<Seq<u8>>,
)
    requires
        forall|v: Seq<u8>| a.contains(v) <==> b.contains(v),
    ensures
        recorded_agents(n, a) == recorded_agents(n, b),
{
    assert forall|x: Agent| records(n, a, x) == records(n, b, x) by {
        if records(n, a, x) {
            let i = choose|i: int| 0 <= i < a.len() && agent_named(n, #[trigger] a[i]) == Some(x);
            assert(a.contains(a[i]));
            assert(b.contains(a[i]));
            let j = choose|j: int| 0 <= j < b.len() && b[j] == a[i];
            assert(agent_named(n, b[j]) == Some(x));
        }
        if records(n, b, x) {
            let i = choose|i: int| 0 <= i < b.len() && agent_named(n, #[trigger] b[i]) == Some(x);
            assert(b.contains(b[i]));
            assert(a.contains(b[i]));
            let j = choose|j: int| 0 <= j < a.len() && a[j] == b[i];
            assert(agent_named(n, a[j]) == Some(x));
        }
    }
}

fn is_recorded(names: &AgentNames, values: &Vec<Vec<u8>>, agent: Agent) -> (r: bool)
    ensures
        r == records(names@, views(values@), agent),
{
    let mut i: usize = 0;
    while i < values.len()
        invariant
            i <= values.len(),
            forall|j: int|
                0 <= j < i ==> agent_named(names@, #[trigger] views(values@)[j]) != Some(agent),
        decreases values.len() - i,
    {
        proof {
            assert(views(values@)[i as int] == values@[i as int]@);
        }
        match Agent::parse(names, values[i].as_slice()) {
            Some(found) => {
                if found == agent {
                    return true;
                }
            },
            None => {},
        }
        i = i + 1;
    }
    false
}

fn has_text(list: &Vec<String>, t: &str) -> (r: bool)
    ensures
        r == texts(list@).contains(t@),
{
    let mut i: usize = 0;
    while i < list.len()
        invariant
            i <= list.len(),
            forall|j: int| 0 <= j < i ==> texts(list@)[j] != t@,
        decreases list.len() - i,
    {
        if same_text(list[i].as_str(), t) {
            proof {
                assert(texts(list@)[i as int] == t@);
            }
            return true;
        }
        i = i + 1;
    }
    false
}

/// Reads a grove's policy.
pub fn read_policy<R: GitRunner + ?Sized>(runner: &mut R, grove: &Grove, names: &AgentNames) -> (r:
    Result<(Vec<Agent>, Vec<String>)>)
    ensures
        (final(runner).session(), policy_outcome(r)) == policy_run(
            old(runner).session(),
            names@,
            grove.root@,
        ),
{
    let values = config_values(runner, grove.config_path().as_slice(), POLICY_KEY.as_bytes())?;
    let ghost all = views(values@);
    let mut unknown: Vec<String> = Vec::new();
    let mut i: usize = 0;
    proof {
        assert(texts(unknown@) =~= unknown_values(names@, all, 0));
    }
    while i < values.len()
        invariant
            i <= values.len(),
            all == views(values@),
            all.len() == values@.len(),
            texts(unknown@) == unknown_values(names@, all, i as int),
        decreases values.len() - i,
    {
        broadcast use lemma_texts_push;

        proof {
            assert(all[i as int] == values@[i as int]@);
        }
        match Agent::parse(names, values[i].as_slice()) {
            Some(_) => {},
            None => {
                let shown = lossy(values[i].as_slice());
                if !has_text(&unknown, shown.as_str()) {
                    unknown.push(shown);
                }
            },
        }
        i = i + 1;
    }
    let mut agents: Vec<Agent> = Vec::new();
    if is_recorded(names, &values, Agent::Claude) {
        agents.push(Agent::Claude);
    }
    if is_recorded(names, &values, Agent::Codex) {
        agents.push(Agent::Codex);
    }
    if is_recorded(names, &values, Agent::Copilot) {
        agents.push(Agent::Copilot);
    }
    proof {
        assert(agents@ =~= recorded_agents(names@, all));
    }
    Ok((agents, unknown))
}

/// Recording an agent, unless it is recorded already.
pub open spec fn register_run(s: Session, n: NamesView, root: Seq<u8>, a: Agent) -> (
    Session,
    Outcome<()>,
) {
    match config_values_run(s, config_of(root), lit(POLICY_KEY)) {
        (s1, Err(e)) => (s1, Err(e)),
        (s1, Ok(values)) => if values.contains(encode_utf8(agent_text(n, a))) {
            (s1, Ok(()))
        } else {
            set_config_run(
                s1,
                config_of(root),
                lit(POLICY_KEY),
                encode_utf8(agent_text(n, a)),
                true,
            )
        },
    }
}

/// An agent that is recorded already is not recorded again: the policy is read, and nothing else is
/// asked of Git.
pub proof fn recorded_agents_are_not_recorded_again(
    s: Session,
    n: NamesView,
    root: Seq<u8>,
    a: Agent,
    values: Seq<Seq<u8>>,
)
    requires
        config_values_run(s, config_of(root), lit(POLICY_KEY)).1 == Ok::<Seq<Seq<u8>>, ErrorView>(
            values,
        ),
        values.contains(encode_utf8(agent_text(n, a))),
    ensures
        register_run(s, n, root, a) == (
            step(s, get_all(config_of(root), lit(POLICY_KEY))).0,
            Ok::<(), ErrorView>(()),
        ),
{
}

/// Records an agent, unless it is recorded already.
pub fn register_policy<R: GitRunner + ?Sized>(
    runner: &mut R,
    grove: &Grove,
    names: &AgentNames,
    agent: Agent,
) -> (r: Result<()>)
    ensures
        (final(runner).session(), plain(r)) == register_run(
            old(runner).session(),
            names@,
            grove.root@,
            agent,
        ),
{
    let config = grove.config_path();
    let values = config_values(runner, config.as_slice(), POLICY_KEY.as_bytes())?;
    let value = agent.as_str(names).as_bytes();
    let mut i: usize = 0;
    while i < values.len()
        invariant
            i <= values.len(),
            value@ == encode_utf8(agent_text(names@, agent)),
            forall|j: int| 0 <= j < i ==> views(values@)[j] != value@,
            (runner.session(), Ok::<Seq<Seq<u8>>, ErrorView>(views(values@)))
                == config_values_run(
                old(runner).session(),
                config_of(grove.root@),
                lit(POLICY_KEY),
            ),
        decreases values.len() - i,
    {
        if same(values[i].as_slice(), value) {
            proof {
                assert(views(values@)[i as int] == value@);
            }
            return Ok(());
        }
        i = i + 1;
    }
    proof {
        assert(!views(values@).contains(value@));
    }
    set_config(runner, config.as_slice(), POLICY_KEY.as_bytes(), value, true)
}

// ------------------------------------------------------------- which worktree

/// A path as the file system has it; where it has none, the path itself.
pub open spec fn canonical_run(s: FileSession, path: Seq<u8>) -> (FileSession, Seq<u8>) {
    match bytes_step(s, FileRequest::Canonicalize(path)) {
        (s1, Ok(p)) => (s1, p),
        (s1, Err(_)) => (s1, path),
    }
}

fn canonical<F: FileSystem + ?Sized>(files: &mut F, path: &[u8]) -> (r: Vec<u8>)
    ensures
        (final(files).files(), r@) == canonical_run(old(files).files(), path@),
{
    match ask_bytes(files, FileRequest::Canonicalize(copied(path))) {
        Ok(p) => p,
        Err(_) => copied(path),
    }
}

/// Whether two paths lead to one worktree: they are the same, or they are where links are
/// followed.
pub open spec fn same_worktree_run(s: FileSession, registered: Seq<u8>, candidate: Seq<u8>) -> (
    FileSession,
    bool,
) {
    if same_path(registered, candidate) {
        (s, true)
    } else {
        let (s1, a) = canonical_run(s, registered);
        let (s2, b) = canonical_run(s1, candidate);
        (s2, same_path(a, b))
    }
}

fn same_worktree<F: FileSystem + ?Sized>(files: &mut F, registered: &[u8], candidate: &[u8]) -> (r:
    bool)
    ensures
        (final(files).files(), r) == same_worktree_run(
            old(files).files(),
            registered@,
            candidate@,
        ),
{
    if is_same_path(registered, candidate) {
        return true;
    }
    let a = canonical(files, registered);
    let b = canonical(files, candidate);
    is_same_path(a.as_slice(), b.as_slice())
}

/// The first worktree from `i` on, not counting bare entries, that a path leads to.
pub open spec fn find_from(s: FileSession, list: Seq<RecordView>, path: Seq<u8>, i: int) -> (
    FileSession,
    Option<Seq<u8>>,
)
    decreases list.len() - i,
{
    if i >= list.len() {
        (s, None)
    } else if list[i].bare {
        find_from(s, list, path, i + 1)
    } else {
        let (s1, same) = same_worktree_run(s, list[i].path, path);
        if same {
            (s1, Some(list[i].path))
        } else {
            find_from(s1, list, path, i + 1)
        }
    }
}

fn find_worktree<F: FileSystem + ?Sized>(
    files: &mut F,
    list: &Vec<WorktreeRecord>,
    path: &[u8],
) -> (r: Option<Vec<u8>>)
    ensures
        (final(files).files(), opt_view(r)) == find_from(
            old(files).files(),
            record_views(list@),
            path@,
            0,
        ),
{
    let ghost start = files.files();
    let ghost all = record_views(list@);
    let mut i: usize = 0;
    while i < list.len()
        invariant
            i <= list.len(),
            all == record_views(list@),
            all.len() == list@.len(),
            start == old(files).files(),
            find_from(start, all, path@, 0) == find_from(files.files(), all, path@, i as int),
        decreases list.len() - i,
    {
        proof {
            assert(all[i as int] == list@[i as int]@);
        }
        if !list[i].bare {
            if same_worktree(files, list[i].path.as_slice(), path) {
                return Some(copied(list[i].path.as_slice()));
            }
        }
        i = i + 1;
    }
    None
}

/// The first worktree from `i` on, not counting bare entries, that has the branch checked out.
pub open spec fn holding_branch(list: Seq<RecordView>, branch: Seq<u8>, i: int) -> Option<Seq<u8>>
    decreases list.len() - i,
{
    if i >= list.len() {
        None
    } else if !list[i].bare && list[i].branch == Some(branch) {
        Some(list[i].path)
    } else {
        holding_branch(list, branch, i + 1)
    }
}

fn worktree_with_branch(list: &Vec<WorktreeRecord>, branch: &[u8]) -> (r: Option<Vec<u8>>)
    ensures
        opt_view(r) == holding_branch(record_views(list@), branch@, 0),
{
    let ghost all = record_views(list@);
    let mut i: usize = 0;
    while i < list.len()
        invariant
            i <= list.len(),
            all == record_views(list@),
            all.len() == list@.len(),
            holding_branch(all, branch@, 0) == holding_branch(all, branch@, i as int),
        decreases list.len() - i,
    {
        proof {
            assert(all[i as int] == list@[i as int]@);
        }
        if !list[i].bare {
            match &list[i].branch {
                Some(held) => {
                    if same(held.as_slice(), branch) {
                        return Some(copied(list[i].path.as_slice()));
                    }
                },
                None => {},
            }
        }
        i = i + 1;
    }
    None
}

/// The working tree that a directory lies in.
pub open spec fn toplevel_run(s: Session, cwd: Seq<u8>) -> (Session, Outcome<Seq<u8>>) {
    match step(
        s,
        InvocationView {
            cwd: Some(cwd),
            ..invoke(args2(lit("rev-parse"), lit("--show-toplevel")))
        },
    ) {
        (s1, Err(e)) => (s1, Err(e)),
        (s1, Ok(out)) => if out.ok() {
            (s1, one_line_of(out.stdout, "working tree"@))
        } else {
            (s1, Err(exit_failure("rev-parse --show-toplevel"@, out)))
        },
    }
}

/// The working tree that a directory lies in.
pub fn worktree_toplevel<R: GitRunner + ?Sized>(runner: &mut R, cwd: &[u8]) -> (r: Result<Vec<u8>>)
    ensures
        (final(runner).session(), bytes_outcome(r)) == toplevel_run(old(runner).session(), cwd@),
{
    let output = runner.run(
        Invocation::new().cwd(cwd).word("rev-parse").word("--show-toplevel"),
    )?;
    if !output.ok() {
        return Err(exit_error("rev-parse --show-toplevel", &output));
    }
    trim_one_line(output.stdout, "working tree")
}

pub open spec fn list_hint() -> Seq<char> {
    "`git grove list` shows every worktree of this grove"@
}

/// The worktree that a name stands for.
pub open spec fn named_worktree(
    s: FileSession,
    root: Seq<u8>,
    list: Seq<RecordView>,
    requested: Seq<u8>,
) -> (FileSession, Outcome<Seq<u8>>) {
    match relative_place(requested) {
        Err(e) => (s, Err(e)),
        Ok(relative) => match find_from(s, list, child(root, relative), 0) {
            (s1, Some(path)) => (s1, Ok(path)),
            (s1, None) => (
                s1,
                Err(
                    detailed(
                        usage(lossy_text(relative) + " is not a worktree of this grove"@),
                        list_hint(),
                    ),
                ),
            ),
        },
    }
}

/// The worktree that a working tree is.
pub open spec fn current_worktree(s: FileSession, list: Seq<RecordView>, toplevel: Seq<u8>) -> (
    FileSession,
    Outcome<Seq<u8>>,
) {
    match find_from(s, list, toplevel, 0) {
        (s1, Some(path)) => (s1, Ok(path)),
        (s1, None) => (
            s1,
            Err(
                detailed(
                    usage(
                        lossy_text(toplevel)
                            + " is a Git working tree, but not a worktree of this grove"@,
                    ),
                    list_hint() + "; name one with --worktree <name>"@,
                ),
            ),
        ),
    }
}

/// The worktree that holds the recorded default branch.
pub open spec fn default_worktree(list: Seq<RecordView>, default: Option<Seq<u8>>) -> Outcome<
    Seq<u8>,
> {
    match default {
        None => Err(
            detailed(
                needs_decision("this grove records no default branch to fall back on"@),
                "run `git grove setup` from inside a worktree, or name one with --worktree <name>"@,
            ),
        ),
        Some(branch) => match holding_branch(list, branch, 0) {
            Some(path) => Ok(path),
            None => Err(
                detailed(
                    needs_decision(
                        "the grove's default branch "@ + lossy_text(branch)
                            + " is not checked out in any worktree"@,
                    ),
                    "run `git grove add "@ + lossy_text(branch)
                        + "`, or name another worktree with --worktree <name>"@,
                ),
            ),
        },
    }
}

/// Which worktree to configure: the one that was named; else the one that the current directory
/// lies in; else, where that is no working tree, the one that holds the default branch.
pub open spec fn resolve_run(
    s: Session,
    f: FileSession,
    root: Seq<u8>,
    default: Option<Seq<u8>>,
    requested: Option<Seq<u8>>,
    cwd: Seq<u8>,
) -> (Session, FileSession, Outcome<Seq<u8>>) {
    match worktrees_run(s, root) {
        (s1, Err(e)) => (s1, f, Err(e)),
        (s1, Ok(list)) => match requested {
            Some(name) => {
                let (f1, r) = named_worktree(f, root, list, name);
                (s1, f1, r)
            },
            None => match toplevel_run(s1, cwd) {
                (s2, Ok(toplevel)) => {
                    let (f1, r) = current_worktree(f, list, toplevel);
                    (s2, f1, r)
                },
                (s2, Err(_)) => (s2, f, default_worktree(list, default)),
            },
        },
    }
}

/// Which worktree to configure.
pub fn resolve_worktree<R: GitRunner + ?Sized, F: FileSystem + ?Sized>(
    runner: &mut R,
    files: &mut F,
    grove: &Grove,
    metadata: &Metadata,
    requested: Option<&[u8]>,
    cwd: &[u8],
) -> (r: Result<Vec<u8>>)
    ensures
        (final(runner).session(), final(files).files(), bytes_outcome(r)) == resolve_run(
            old(runner).session(),
            old(files).files(),
            grove.root@,
            metadata@.default_branch,
            opt_slice(requested),
            cwd@,
        ),
{
    let checkouts = worktrees(runner, grove)?;
    if let Some(name) = requested {
        let relative = validate_relative_worktree_path(name)?;
        let path = join_path(grove.root.as_slice(), relative.as_slice());
        return match find_worktree(files, &checkouts, path.as_slice()) {
            Some(found) => Ok(found),
            None => Err(
                GroveError::usage(
                    lossy(relative.as_slice()).concat(" is not a worktree of this grove"),
                ).with_detail(text("`git grove list` shows every worktree of this grove")),
            ),
        };
    }
    match worktree_toplevel(runner, cwd) {
        Ok(toplevel) => {
            return match find_worktree(files, &checkouts, toplevel.as_slice()) {
                Some(found) => Ok(found),
                None => Err(
                    GroveError::usage(
                        lossy(toplevel.as_slice()).concat(
                            " is a Git working tree, but not a worktree of this grove",
                        ),
                    ).with_detail(
                        text("`git grove list` shows every worktree of this grove").concat(
                            "; name one with --worktree <name>",
                        ),
                    ),
                ),
            };
        },
        Err(_) => {},
    }
    match &metadata.default_branch {
        None => Err(
            GroveError::needs_decision(
                text("this grove records no default branch to fall back on"),
            ).with_detail(
                text(
                    "run `git grove setup` from inside a worktree, or name one with --worktree <name>",
                ),
            ),
        ),
        Some(branch) => match worktree_with_branch(&checkouts, branch.as_slice()) {
            Some(found) => Ok(found),
            None => {
                let shown = lossy(branch.as_slice());
                Err(
                    GroveError::needs_decision(
                        text("the grove's default branch ").concat(shown.as_str()).concat(
                            " is not checked out in any worktree",
                        ),
                    ).with_detail(
                        text("run `git grove add ").concat(shown.as_str()).concat(
                            "`, or name another worktree with --worktree <name>",
                        ),
                    ),
                )
            },
        },
    }
}

// --------------------------------------------------------- the configuration file

pub open spec fn cannot(action: &str, path: Seq<u8>, e: FailureView) -> ErrorView {
    failure("cannot "@ + action@ + " "@ + lossy_text(path) + ": "@ + e.text)
}

/// Opening the directory that an agent's file lies in, made where it is missing. Links are not
/// followed, and whatever is in the way that is not a plain directory and file is refused.
pub open spec fn open_target_run(s: FileSession, worktree: Seq<u8>, t: TargetView) -> (
    FileSession,
    Outcome<u64>,
) {
    let dir = child(worktree, t.dir);
    match facts_step(s, FileRequest::Inspect(dir)) {
        (s1, Ok(facts)) => if facts.kind == FileKind::Directory {
            open_leaf_run(s1, dir, t)
        } else {
            (
                s1,
                Err(
                    needs_decision(
                        lossy_text(dir)
                            + " exists and is not a plain directory; refusing to write the hook config there"@,
                    ),
                ),
            )
        },
        (s1, Err(e)) => if e.kind == FailureKind::NotFound {
            match done_step(s1, FileRequest::CreateDirectory(dir)) {
                (s2, Err(e)) => (s2, Err(cannot("create", dir, e))),
                (s2, Ok(_)) => open_leaf_run(s2, dir, t),
            }
        } else {
            (s1, Err(cannot("inspect", dir, e)))
        },
    }
}

pub open spec fn open_leaf_run(s: FileSession, dir: Seq<u8>, t: TargetView) -> (
    FileSession,
    Outcome<u64>,
) {
    match handle_step(s, FileRequest::OpenDirectory(dir)) {
        (s1, Err(e)) => (
            s1,
            Err(needs_decision(lossy_text(dir) + " is not a plain directory: "@ + e.text)),
        ),
        (s1, Ok(directory)) => {
            let leaf = child(dir, t.file);
            match facts_step(s1, FileRequest::Inspect(leaf)) {
                (s2, Ok(facts)) => if facts.kind == FileKind::Regular {
                    (s2, Ok(directory))
                } else {
                    (
                        s2,
                        Err(
                            needs_decision(
                                lossy_text(leaf)
                                    + " exists and is not a plain file; refusing to overwrite it"@,
                            ),
                        ),
                    )
                },
                (s2, Err(e)) => if e.kind == FailureKind::NotFound {
                    (s2, Ok(directory))
                } else {
                    (s2, Err(cannot("inspect", leaf, e)))
                },
            }
        },
    }
}

fn cannot_error(action: &str, path: &[u8], error: &IoFailure) -> (r: GroveError)
    ensures
        r@ == cannot(action, path@, error@),
{
    GroveError::failure(
        text("cannot ").concat(action).concat(" ").concat(lossy(path).as_str()).concat(
            ": ",
        ).concat(error.text.as_str()),
    )
}

/// Opens the directory that an agent's file lies in.
pub fn open_target_directory<F: FileSystem + ?Sized>(
    files: &mut F,
    worktree_root: &[u8],
    target: &Target,
) -> (r: Result<u64>)
    ensures
        (final(files).files(), plain(r)) == open_target_run(
            old(files).files(),
            worktree_root@,
            target@,
        ),
{
    let dir = join_path(worktree_root, target.relative_dir.as_slice());
    match ask_facts(files, FileRequest::Inspect(copied(dir.as_slice()))) {
        Ok(facts) => {
            if facts.kind != FileKind::Directory {
                return Err(
                    GroveError::needs_decision(
                        lossy(dir.as_slice()).concat(
                            " exists and is not a plain directory; refusing to write the hook config there",
                        ),
                    ),
                );
            }
        },
        Err(e) => {
            if e.kind != FailureKind::NotFound {
                return Err(cannot_error("inspect", dir.as_slice(), &e));
            }
            match do_request(files, FileRequest::CreateDirectory(copied(dir.as_slice()))) {
                Err(e) => return Err(cannot_error("create", dir.as_slice(), &e)),
                Ok(_) => {},
            }
        },
    }
    let directory = match ask_handle(files, FileRequest::OpenDirectory(copied(dir.as_slice()))) {
        Err(e) => return Err(
            GroveError::needs_decision(
                lossy(dir.as_slice()).concat(" is not a plain directory: ").concat(
                    e.text.as_str(),
                ),
            ),
        ),
        Ok(h) => h,
    };
    let leaf = join_path(dir.as_slice(), target.relative_file.as_slice());
    match ask_facts(files, FileRequest::Inspect(copied(leaf.as_slice()))) {
        Ok(facts) => {
            if facts.kind != FileKind::Regular {
                return Err(
                    GroveError::needs_decision(
                        lossy(leaf.as_slice()).concat(
                            " exists and is not a plain file; refusing to overwrite it",
                        ),
                    ),
                );
            }
        },
        Err(e) => {
            if e.kind != FailureKind::NotFound {
                return Err(cannot_error("inspect", leaf.as_slice(), &e));
            }
        },
    }
    Ok(directory)
}

/// The contents of an agent's file; nothing where there is no file.
pub open spec fn existing_run(s: FileSession, directory: u64, t: TargetView) -> (
    FileSession,
    Outcome<Seq<u8>>,
) {
    match handle_step(s, FileRequest::OpenFileAt(directory, t.file)) {
        (s1, Err(e)) => if e.kind == FailureKind::NotFound {
            (s1, Ok(seq![]))
        } else {
            (s1, Err(cannot("open", relative_of(t), e)))
        },
        (s1, Ok(file)) => match bytes_step(s1, FileRequest::ReadAll(file)) {
            (s2, Err(e)) => (s2, Err(cannot("read", relative_of(t), e))),
            (s2, Ok(bytes)) => (s2, Ok(bytes)),
        },
    }
}

/// Reads an agent's file from the directory that is held.
pub fn read_existing<F: FileSystem + ?Sized>(files: &mut F, directory: u64, target: &Target) -> (r:
    Result<Vec<u8>>)
    ensures
        (final(files).files(), bytes_outcome(r)) == existing_run(
            old(files).files(),
            directory,
            target@,
        ),
{
    match ask_handle(
        files,
        FileRequest::OpenFileAt(directory, copied(target.relative_file.as_slice())),
    ) {
        Err(e) => {
            if e.kind == FailureKind::NotFound {
                let none: Vec<u8> = Vec::new();
                proof {
                    assert(none@ =~= seq![]);
                }
                Ok(none)
            } else {
                Err(cannot_error("open", target.relative_path().as_slice(), &e))
            }
        },
        Ok(file) => match ask_bytes(files, FileRequest::ReadAll(file)) {
            Err(e) => Err(cannot_error("read", target.relative_path().as_slice(), &e)),
            Ok(bytes) => Ok(bytes),
        },
    }
}

/// What the agent's own format made of merging the hook group into the file: the new contents,
/// or why they cannot be had.
pub type Merged = std::result::Result<Vec<u8>, String>;

pub type MergedView = std::result::Result<Seq<u8>, Seq<char>>;

pub open spec fn merged_view(m: Merged) -> MergedView {
    match m {
        Ok(b) => Ok(b@),
        Err(t) => Err(t@),
    }
}

pub open spec fn merge_refused(t: TargetView, reason: Seq<char>) -> ErrorView {
    needs_decision(lossy_text(relative_of(t)) + " "@ + reason + "; refusing to merge"@)
}

fn merge_error(target: &Target, reason: &str) -> (r: GroveError)
    ensures
        r@ == merge_refused(target@, reason@),
{
    GroveError::needs_decision(
        lossy(target.relative_path().as_slice()).concat(" ").concat(reason).concat(
            "; refusing to merge",
        ),
    )
}

/// Putting the merged contents in the agent's file.
pub open spec fn write_config_run(
    s: FileSession,
    worktree: Seq<u8>,
    t: TargetView,
    directory: u64,
    merged: MergedView,
    d: Draws,
) -> (FileSession, Outcome<()>) {
    match merged {
        Err(reason) => (s, Err(merge_refused(t, reason))),
        Ok(bytes) => write_in_run(
            s,
            child(worktree, relative_of(t)),
            bytes,
            directory,
            child(worktree, t.dir),
            t.file,
            TempStrategy::Auto,
            d,
        ),
    }
}

/// Puts the merged contents in the agent's file; where they could not be merged, nothing is
/// written.
pub fn write_merged<F: FileSystem + ?Sized>(
    files: &mut F,
    worktree_root: &[u8],
    target: &Target,
    directory: u64,
    merged: Merged,
) -> (r: Result<()>)
    ensures
        exists|d: Draws|
            possible_draws(d) && (final(files).files(), plain(r)) == #[trigger] write_config_run(
                old(files).files(),
                worktree_root@,
                target@,
                directory,
                merged_view(merged),
                d,
            ),
{
    let ghost start = files.files();
    match merged {
        Err(reason) => {
            let e = merge_error(target, reason.as_str());
            proof {
                let d = Draws { created: Seq::empty(), linked: Seq::empty() };
                assert(possible_draws(d));
                assert((start, Err::<(), ErrorView>(e@)) == write_config_run(
                    start,
                    worktree_root@,
                    target@,
                    directory,
                    merged_view(merged),
                    d,
                ));
            }
            Err(e)
        },
        Ok(bytes) => {
            let parent = join_path(worktree_root, target.relative_dir.as_slice());
            let full = join_path(worktree_root, target.relative_path().as_slice());
            let r = write_atomic_in(
                files,
                directory,
                parent.as_slice(),
                full.as_slice(),
                target.relative_file.as_slice(),
                bytes.as_slice(),
                TempStrategy::Auto,
            );
            proof {
                let d = choose|d: Draws|
                    possible_draws(d) && (files.files(), plain(r)) == #[trigger] write_in_run(
                        start,
                        full@,
                        bytes@,
                        directory,
                        parent@,
                        target@.file,
                        TempStrategy::Auto,
                        d,
                    );
                assert((files.files(), plain(r)) == write_config_run(
                    start,
                    worktree_root@,
                    target@,
                    directory,
                    merged_view(merged),
                    d,
                ));
            }
            r
        },
    }
}

// --------------------------------------------------------------------- applying

/// Whether a file is tracked in a worktree.
pub open spec fn tracked_run(s: Session, worktree: Seq<u8>, relative: Seq<u8>) -> (
    Session,
    Outcome<bool>,
) {
    match step(
        s,
        InvocationView {
            cwd: Some(worktree),
            ..invoke(args4(lit("ls-files"), lit("--error-unmatch"), lit("--"), relative))
        },
    ) {
        (s1, Err(e)) => (s1, Err(e)),
        (s1, Ok(out)) => if out.status == 0 {
            (s1, Ok(true))
        } else if out.status == 1 {
            (s1, Ok(false))
        } else {
            (s1, Err(exit_failure("ls-files --error-unmatch"@, out)))
        },
    }
}

/// Whether a file is tracked in a worktree.
pub fn is_tracked<R: GitRunner + ?Sized>(runner: &mut R, worktree_root: &[u8], relative: &[u8]) -> (r:
    Result<bool>)
    ensures
        (final(runner).session(), plain(r)) == tracked_run(
            old(runner).session(),
            worktree_root@,
            relative@,
        ),
{
    let output = runner.run(
        Invocation::new().cwd(worktree_root).word("ls-files").word("--error-unmatch").word(
            "--",
        ).arg(relative),
    )?;
    if output.status == 0 {
        Ok(true)
    } else if output.status == 1 {
        Ok(false)
    } else {
        Err(exit_error("ls-files --error-unmatch", &output))
    }
}

/// An agent's file, ready to be merged into: the directory that holds it, and its contents.
#[derive(Debug)]
pub struct Prepared {
    pub directory: u64,
    pub existing: Vec<u8>,
}

pub struct PreparedView {
    pub directory: u64,
    pub existing: Seq<u8>,
}

impl View for Prepared {
    type V = PreparedView;

    open spec fn view(&self) -> PreparedView {
        PreparedView { directory: self.directory, existing: self.existing@ }
    }
}

pub open spec fn prepared_outcome(r: Result<Prepared>) -> Outcome<PreparedView> {
    match r {
        Ok(p) => Ok(p@),
        Err(e) => Err(e@),
    }
}

/// The first half of configuring an agent: nothing is written that was there before.
pub open spec fn prepare_run(s: Session, f: FileSession, worktree: Seq<u8>, t: TargetView) -> (
    Session,
    FileSession,
    Outcome<PreparedView>,
) {
    match tracked_run(s, worktree, relative_of(t)) {
        (s1, Err(e)) => (s1, f, Err(e)),
        (s1, Ok(known)) => if known {
            (
                s1,
                f,
                Err(
                    needs_decision(
                        lossy_text(relative_of(t))
                            + " is already tracked in this worktree; untrack it or resolve the policy conflict, then run setup again"@,
                    ),
                ),
            )
        } else {
            match open_target_run(f, worktree, t) {
                (f1, Err(e)) => (s1, f1, Err(e)),
                (f1, Ok(directory)) => match existing_run(f1, directory, t) {
                    (f2, Err(e)) => (s1, f2, Err(e)),
                    (f2, Ok(existing)) => (s1, f2, Ok(PreparedView { directory, existing })),
                },
            }
        },
    }
}

/// A file that is tracked is refused, and left for its user to decide on, before the file system is
/// asked for anything.
pub proof fn tracked_files_are_refused_unseen(
    s: Session,
    f: FileSession,
    worktree: Seq<u8>,
    t: TargetView,
)
    requires
        tracked_run(s, worktree, relative_of(t)).1 == Ok::<bool, ErrorView>(true),
    ensures
        ({
            let (s1, f1, r) = prepare_run(s, f, worktree, t);
            &&& f1 == f
            &&& r matches Err(e)
            &&& e.class == ExitClass::NeedsDecision
        }),
{
}

/// Until an agent's file is found fit to be written, the directory that it lies in is made where it
/// is missing, and nothing else is changed.
pub proof fn preparing_makes_at_most_a_directory(
    s: Session,
    f: FileSession,
    worktree: Seq<u8>,
    t: TargetView,
)
    ensures
        ({
            let f1 = prepare_run(s, f, worktree, t).1;
            &&& f1.script == f.script
            &&& f.calls.is_prefix_of(f1.calls)
            &&& forall|i: int|
                f.calls.len() <= i < f1.calls.len() ==> looks(#[trigger] f1.calls[i])
                    || f1.calls[i] == FileRequest::CreateDirectory(child(worktree, t.dir))
        }),
{
}

/// Checks that an agent's file may be written in a worktree, and reads it.
pub fn prepare<R: GitRunner + ?Sized, F: FileSystem + ?Sized>(
    runner: &mut R,
    files: &mut F,
    worktree_root: &[u8],
    target: &Target,
) -> (r: Result<Prepared>)
    ensures
        (final(runner).session(), final(files).files(), prepared_outcome(r)) == prepare_run(
            old(runner).session(),
            old(files).files(),
            worktree_root@,
            target@,
        ),
{
    let relative = target.relative_path();
    if is_tracked(runner, worktree_root, relative.as_slice())? {
        return Err(
            GroveError::needs_decision(
                lossy(relative.as_slice()).concat(
                    " is already tracked in this worktree; untrack it or resolve the policy conflict, then run setup again",
                ),
            ),
        );
    }
    let directory = open_target_directory(files, worktree_root, target)?;
    let existing = read_existing(files, directory, target)?;
    Ok(Prepared { directory, existing })
}

pub open spec fn exclude_file(root: Seq<u8>) -> Seq<u8> {
    child(root, lit(".bare/info/exclude"))
}

/// The second half of configuring an agent: the common exclude file, and then the agent's own.
/// Where the contents could not be merged, neither is touched.
pub open spec fn finish_run(
    s: FileSession,
    root: Seq<u8>,
    worktree: Seq<u8>,
    t: TargetView,
    directory: u64,
    merged: MergedView,
    excluded: Draws,
    configured: Draws,
) -> (FileSession, Outcome<()>) {
    match merged {
        Err(reason) => (s, Err(merge_refused(t, reason))),
        Ok(_) => {
            let path = exclude_file(root);
            let (s1, read) = bytes_step(s, FileRequest::Read(path));
            let existing = match read {
                Ok(bytes) => Ok(bytes),
                Err(e) => if e.kind == FailureKind::NotFound {
                    Ok(Seq::<u8>::empty())
                } else {
                    Err(cannot("read", path, e))
                },
            };
            match existing {
                Err(e) => (s1, Err(e)),
                Ok(bytes) => match write_run(
                    s1,
                    path,
                    with_entry(bytes, exclude_of(t)),
                    TempStrategy::Auto,
                    excluded,
                ) {
                    (s2, Err(e)) => (s2, Err(e)),
                    (s2, Ok(_)) => write_config_run(
                        s2,
                        worktree,
                        t,
                        directory,
                        merged,
                        configured,
                    ),
                },
            }
        },
    }
}

/// Whether an outcome is one that the second half of configuring an agent can have.
pub open spec fn finished(
    before: FileSession,
    root: Seq<u8>,
    worktree: Seq<u8>,
    t: TargetView,
    directory: u64,
    merged: MergedView,
    after: FileSession,
    r: Outcome<()>,
) -> bool {
    exists|excluded: Draws, configured: Draws|
        possible_draws(excluded) && possible_draws(configured) && (after, r)
            == #[trigger] finish_run(
            before,
            root,
            worktree,
            t,
            directory,
            merged,
            excluded,
            configured,
        )
}

/// Excludes an agent's file from `git status`, and writes it.
pub fn finish<F: FileSystem + ?Sized>(
    files: &mut F,
    grove_root: &[u8],
    worktree_root: &[u8],
    target: &Target,
    directory: u64,
    merged: Merged,
) -> (r: Result<()>)
    ensures
        finished(
            old(files).files(),
            grove_root@,
            worktree_root@,
            target@,
            directory,
            merged_view(merged),
            final(files).files(),
            plain(r),
        ),
{
    let ghost start = files.files();
    let ghost m = merged_view(merged);
    let ghost none = Draws { created: Seq::empty(), linked: Seq::empty() };
    proof {
        assert(possible_draws(none));
    }
    if let Err(reason) = &merged {
        let e = merge_error(target, reason.as_str());
        proof {
            assert((start, Err::<(), ErrorView>(e@)) == finish_run(
                start,
                grove_root@,
                worktree_root@,
                target@,
                directory,
                m,
                none,
                none,
            ));
        }
        return Err(e);
    }
    let path = join_word(grove_root, ".bare/info/exclude");
    let existing = match ask_bytes(files, FileRequest::Read(copied(path.as_slice()))) {
        Ok(bytes) => bytes,
        Err(e) => {
            if e.kind == FailureKind::NotFound {
                Vec::new()
            } else {
                let failed = cannot_error("read", path.as_slice(), &e);
                proof {
                    assert((files.files(), Err::<(), ErrorView>(failed@)) == finish_run(
                        start,
                        grove_root@,
                        worktree_root@,
                        target@,
                        directory,
                        m,
                        none,
                        none,
                    ));
                }
                return Err(failed);
            }
        },
    };
    let updated = add_exclude_entry(existing.as_slice(), target.exclude_entry().as_slice());
    let ghost middle = files.files();
    let wrote = write_atomic(files, path.as_slice(), updated.as_slice());
    let ghost excluded = choose|d: Draws|
        possible_draws(d) && (files.files(), plain(wrote)) == #[trigger] write_run(
            middle,
            path@,
            updated@,
            TempStrategy::Auto,
            d,
        );
    if let Err(e) = wrote {
        proof {
            assert((files.files(), Err::<(), ErrorView>(e@)) == finish_run(
                start,
                grove_root@,
                worktree_root@,
                target@,
                directory,
                m,
                excluded,
                none,
            ));
        }
        return Err(e);
    }
    let ghost late = files.files();
    let r = write_merged(files, worktree_root, target, directory, merged);
    proof {
        let configured = choose|d: Draws|
            possible_draws(d) && (files.files(), plain(r)) == #[trigger] write_config_run(
                late,
                worktree_root@,
                target@,
                directory,
                m,
                d,
            );
        assert((files.files(), plain(r)) == finish_run(
            start,
            grove_root@,
            worktree_root@,
            target@,
            directory,
            m,
            excluded,
            configured,
        ));
    }
    r
}

/// Contents that cannot be merged leave every file as it was: nothing is asked of the file
/// system any more.
pub proof fn a_refused_merge_writes_nothing(
    s: FileSession,
    root: Seq<u8>,
    worktree: Seq<u8>,
    t: TargetView,
    directory: u64,
    reason: Seq<char>,
    excluded: Draws,
    configured: Draws,
)
    ensures
        finish_run(s, root, worktree, t, directory, Err(reason), excluded, configured).0 == s,
        finish_run(s, root, worktree, t, directory, Err(reason), excluded, configured).1 is Err,
{
}

// ----------------------------------------------------------------- provisioning

/// What provisioning a worktree came to: a line for each agent that was configured, and one for
/// each problem.
#[derive(Debug)]
pub struct Provisioning {
    pub configured: Vec<String>,
    pub warnings: Vec<String>,
}

pub struct ProvisioningView {
    pub configured: Seq<Seq<char>>,
    pub warnings: Seq<Seq<char>>,
}

impl View for Provisioning {
    type V = ProvisioningView;

    open spec fn view(&self) -> ProvisioningView {
        ProvisioningView { configured: texts(self.configured@), warnings: texts(self.warnings@) }
    }
}

pub open spec fn unknown_warning(value: Seq<char>) -> Seq<char> {
    POLICY_KEY@ + " names an agent this git-grove does not know ("@ + value + "); skipped it"@
}

/// The agents to provision, and what is to be said before any of them is.
pub open spec fn provisioning_run(s: Session, n: NamesView, root: Seq<u8>, worktree: Seq<u8>) -> (
    Session,
    (Seq<Agent>, ProvisioningView),
) {
    match policy_run(s, n, root) {
        (s1, Err(e)) => (
            s1,
            (
                Seq::empty(),
                ProvisioningView {
                    configured: Seq::empty(),
                    warnings: Seq::empty().push(
                        "cannot read "@ + POLICY_KEY@ + " for this grove ("@ + error_text(e)
                            + "); wrote no agent hook configs into "@ + lossy_text(worktree),
                    ),
                },
            ),
        ),
        (s1, Ok((agents, unknown))) => (
            s1,
            (
                agents,
                ProvisioningView {
                    configured: Seq::empty(),
                    warnings: unknown.map_values(|v: Seq<char>| unknown_warning(v)),
                },
            ),
        ),
    }
}

/// Where no agent is recorded, none is provisioned and nothing is said of it.
pub proof fn without_a_policy_no_agent_is_provisioned(
    s: Session,
    n: NamesView,
    root: Seq<u8>,
    worktree: Seq<u8>,
)
    requires
        config_values_run(s, config_of(root), lit(POLICY_KEY)).1 == Ok::<Seq<Seq<u8>>, ErrorView>(
            Seq::empty(),
        ),
    ensures
        provisioning_run(s, n, root, worktree).1 == (
            Seq::<Agent>::empty(),
            (ProvisioningView { configured: Seq::empty(), warnings: Seq::empty() }),
        ),
{
    let none = Seq::<Seq<u8>>::empty();
    assert(recorded_agents(n, none) =~= Seq::empty());
    assert(Seq::<Seq<char>>::empty().map_values(|v: Seq<char>| unknown_warning(v)) =~= Seq::empty());
}

/// Which agents a new worktree is to be provisioned for. A policy that cannot be read, or that
/// names what this program does not know, gives warnings and never an error.
pub fn begin_provisioning<R: GitRunner + ?Sized>(
    runner: &mut R,
    grove: &Grove,
    names: &AgentNames,
    worktree_root: &[u8],
) -> (r: (Vec<Agent>, Provisioning))
    ensures
        (final(runner).session(), (r.0@, r.1@)) == provisioning_run(
            old(runner).session(),
            names@,
            grove.root@,
            worktree_root@,
        ),
{
    let mut warnings: Vec<String> = Vec::new();
    let configured: Vec<String> = Vec::new();
    proof {
        assert(texts(warnings@) =~= Seq::empty());
        assert(texts(configured@) =~= Seq::empty());
    }
    let (agents, unknown) = match read_policy(runner, grove, names) {
        Ok(policy) => policy,
        Err(e) => {
            warnings.push(
                text("cannot read ").concat(POLICY_KEY).concat(" for this grove (").concat(
                    e.to_text().as_str(),
                ).concat("); wrote no agent hook configs into ").concat(
                    lossy(worktree_root).as_str(),
                ),
            );
            let agents: Vec<Agent> = Vec::new();
            proof {
                assert(agents@ =~= Seq::empty());
            }
            return (agents, Provisioning { configured, warnings });
        },
    };
    let ghost lines = texts(unknown@).map_values(|v: Seq<char>| unknown_warning(v));
    let mut i: usize = 0;
    proof {
        assert(texts(warnings@) =~= lines.subrange(0, 0));
    }
    while i < unknown.len()
        invariant
            i <= unknown.len(),
            lines == texts(unknown@).map_values(|v: Seq<char>| unknown_warning(v)),
            lines.len() == unknown@.len(),
            texts(warnings@) == lines.subrange(0, i as int),
        decreases unknown.len() - i,
    {
        broadcast use lemma_texts_push;

        warnings.push(
            text(POLICY_KEY).concat(" names an agent this git-grove does not know (").concat(
                unknown[i].as_str(),
            ).concat("); skipped it"),
        );
        proof {
            assert(lines[i as int] == unknown_warning(unknown@[i as int]@));
            assert(lines.subrange(0, i + 1) =~= lines.subrange(0, i as int).push(
                lines[i as int],
            ));
        }
        i = i + 1;
    }
    proof {
        assert(lines.subrange(0, i as int) =~= lines);
    }
    (agents, Provisioning { configured, warnings })
}

/// What provisioning is once one more agent was tried.
pub open spec fn with_attempt(
    p: ProvisioningView,
    n: NamesView,
    worktree: Seq<u8>,
    a: Agent,
    r: Outcome<()>,
) -> ProvisioningView {
    match r {
        Ok(_) => ProvisioningView {
            configured: p.configured.push(
                "configured the "@ + agent_text(n, a) + " hook: "@ + lossy_text(
                    child(worktree, relative_of(target_for(n, a))),
                ),
            ),
            warnings: p.warnings,
        },
        Err(e) => ProvisioningView {
            configured: p.configured,
            warnings: p.warnings.push(
                "could not configure the "@ + agent_text(n, a) + " hook in "@ + lossy_text(
                    worktree,
                ) + " ("@ + error_text(e)
                    + "); the worktree exists but is not protected -- run `git grove setup --agent "@
                    + agent_text(n, a) + "` from inside it"@,
            ),
        },
    }
}

/// Notes what came of configuring one agent. A failure is a warning, and the next agent is
/// tried all the same.
pub fn note_attempt(
    provisioning: &mut Provisioning,
    names: &AgentNames,
    worktree_root: &[u8],
    agent: Agent,
    attempt: Result<()>,
)
    ensures
        final(provisioning)@ == with_attempt(
            old(provisioning)@,
            names@,
            worktree_root@,
            agent,
            plain(attempt),
        ),
{
    let name = agent.as_str(names);
    match attempt {
        Ok(_) => {
            let target = agent.target(names);
            let path = join_path(worktree_root, target.relative_path().as_slice());
            provisioning.configured.push(
                text("configured the ").concat(name).concat(" hook: ").concat(
                    lossy(path.as_slice()).as_str(),
                ),
            );
        },
        Err(e) => {
            provisioning.warnings.push(
                text("could not configure the ").concat(name).concat(" hook in ").concat(
                    lossy(worktree_root).as_str(),
                ).concat(" (").concat(e.to_text().as_str()).concat(
                    "); the worktree exists but is not protected -- run `git grove setup --agent ",
                ).concat(name).concat("` from inside it"),
            );
        },
    }
}

// ------------------------------------------------------------------- what to do next

pub open spec fn probe_file(root: Seq<u8>) -> Seq<u8> {
    child(root, lit(".bare/git-grove-hook-probe"))
}

pub open spec fn policy_line(n: NamesView, a: Agent) -> Seq<char> {
    "Recorded "@ + agent_text(n, a) + " in "@ + POLICY_KEY@
        + ", so `git grove add` configures it in new worktrees too.\n"@
}

pub open spec fn shared_line(n: NamesView, written: Seq<u8>) -> Seq<char> {
    "Wrote the shared hook config to "@ + lossy_text(written) + " -- this configures both "@
        + n.claude_title + " Code and Copilot CLI.\n"@
}

pub open spec fn first_agent_steps(n: NamesView, written: Seq<u8>, probe: Seq<u8>) -> Seq<char> {
    shared_line(n, written) + policy_line(n, Agent::Claude)
        + "You do not need to run `git grove setup --agent copilot` separately.\nVerify: ask "@ + n.claude_title + " to create "@ + lossy_text(probe)
        + " and confirm the tool call is denied with the git-grove invariant message; then delete the probe file if it was created (the guard failed to fire).\n"@
}

pub open spec fn copilot_steps(n: NamesView, written: Seq<u8>, probe: Seq<u8>) -> Seq<char> {
    shared_line(n, written) + policy_line(n, Agent::Copilot)
        + "You do not need to run `git grove setup --agent "@ + n.claude
        + "` separately.\nMeasured: Copilot CLI 1.0.80 did not fire this local hook source under non-interactive `copilot -p` -- an interactive session did. Re-verify against your installed version before relying on this in non-interactive automation.\nVerify interactively: ask Copilot to create "@
        + lossy_text(probe)
        + " and confirm the tool call is denied; then delete the probe file if it was created (the guard failed to fire).\n"@
}

pub open spec fn codex_steps(n: NamesView, written: Seq<u8>, dir: Seq<u8>, probe: Seq<u8>) -> Seq<
    char,
> {
    "Wrote "@ + lossy_text(written) + ".\n"@ + policy_line(n, Agent::Codex)
        + "\nWARNING: Codex hook enforcement does not work in a grove today. Do not rely on\nthis for protection.\nCodex finds its project root by walking up for its own project_root_markers\n(default `.git`), and a grove root carries git-grove's own `.git` pointer file, so\nCodex resolves the grove root as the project and never reads the target worktree's\n"@
        + lossy_text(dir)
        + "/ at all. What was written here is the exact shape measured working once that\ncollision is gone; until git-grove renames its grove-root signature -- a separate\nchange that has not landed -- this config is correct but inert.\n\nCodex also requires an interactive trust review before it enforces any hook: open\n/hooks in an interactive `codex` session, review the exact command and its hash,\nand trust it. `codex exec` is not protected until that review is complete.\n\nVerify, once both hold: ask Codex to create "@
        + lossy_text(probe)
        + " and confirm the tool call is denied; then delete the probe file if it was created (the guard failed to fire).\nsetup never runs or approves any of these steps itself.\n"@
}

pub open spec fn steps_text(n: NamesView, a: Agent, root: Seq<u8>, worktree: Seq<u8>) -> Seq<char> {
    let t = target_for(n, a);
    let written = child(worktree, relative_of(t));
    match a {
        Agent::Claude => first_agent_steps(n, written, probe_file(root)),
        Agent::Copilot => copilot_steps(n, written, probe_file(root)),
        Agent::Codex => codex_steps(n, written, t.dir, probe_file(root)),
    }
}

/// What the user is told once an agent is configured.
pub fn next_steps(agent: Agent, names: &AgentNames, grove_root: &[u8], worktree_root: &[u8]) -> (r:
    String)
    ensures
        r@ == steps_text(names@, agent, grove_root@, worktree_root@),
{
    let target = agent.target(names);
    let probe = lossy(join_word(grove_root, ".bare/git-grove-hook-probe").as_slice());
    let written = lossy(join_path(worktree_root, target.relative_path().as_slice()).as_slice());
    let policy = text("Recorded ").concat(agent.as_str(names)).concat(" in ").concat(
        POLICY_KEY,
    ).concat(", so `git grove add` configures it in new worktrees too.\n");
    let shared = text("Wrote the shared hook config to ").concat(written.as_str()).concat(
        " -- this configures both ",
    ).concat(names.claude_title.as_str()).concat(" Code and Copilot CLI.\n");
    match agent {
        Agent::Claude => shared.concat(policy.as_str()).concat(
            "You do not need to run `git grove setup --agent copilot` separately.\nVerify: ask ",
        ).concat(
            names.claude_title.as_str(),
        ).concat(" to create ").concat(probe.as_str()).concat(
            " and confirm the tool call is denied with the git-grove invariant message; then delete the probe file if it was created (the guard failed to fire).\n",
        ),
        Agent::Copilot => shared.concat(policy.as_str()).concat(
            "You do not need to run `git grove setup --agent ",
        ).concat(names.claude.as_str()).concat(
            "` separately.\nMeasured: Copilot CLI 1.0.80 did not fire this local hook source under non-interactive `copilot -p` -- an interactive session did. Re-verify against your installed version before relying on this in non-interactive automation.\nVerify interactively: ask Copilot to create ",
        ).concat(probe.as_str()).concat(
            " and confirm the tool call is denied; then delete the probe file if it was created (the guard failed to fire).\n",
        ),
        Agent::Codex => text("Wrote ").concat(written.as_str()).concat(".\n").concat(
            policy.as_str(),
        ).concat(
            "\nWARNING: Codex hook enforcement does not work in a grove today. Do not rely on\nthis for protection.\nCodex finds its project root by walking up for its own project_root_markers\n(default `.git`), and a grove root carries git-grove's own `.git` pointer file, so\nCodex resolves the grove root as the project and never reads the target worktree's\n",
        ).concat(lossy(target.relative_dir.as_slice()).as_str()).concat(
            "/ at all. What was written here is the exact shape measured working once that\ncollision is gone; until git-grove renames its grove-root signature -- a separate\nchange that has not landed -- this config is correct but inert.\n\nCodex also requires an interactive trust review before it enforces any hook: open\n/hooks in an interactive `codex` session, review the exact command and its hash,\nand trust it. `codex exec` is not protected until that review is complete.\n\nVerify, once both hold: ask Codex to create ",
        ).concat(probe.as_str()).concat(
            " and confirm the tool call is denied; then delete the probe file if it was created (the guard failed to fire).\nsetup never runs or approves any of these steps itself.\n",
        ),
    }
}

pub open spec fn conclude_run(s: Session, n: NamesView, root: Seq<u8>, worktree: Seq<u8>, a: Agent) -> (
    Session,
    Outcome<Seq<char>>,
) {
    match register_run(s, n, root, a) {
        (s1, Err(e)) => (s1, Err(e)),
        (s1, Ok(_)) => (s1, Ok(steps_text(n, a, root, worktree))),
    }
}

/// Records an agent whose file was written, and says what to do next.
pub fn conclude<R: GitRunner + ?Sized>(
    runner: &mut R,
    grove: &Grove,
    names: &AgentNames,
    worktree_root: &[u8],
    agent: Agent,
) -> (r: Result<String>)
    ensures
        (final(runner).session(), text_outcome(r)) == conclude_run(
            old(runner).session(),
            names@,
            grove.root@,
            worktree_root@,
            agent,
        ),
{
    register_policy(runner, grove, names, agent)?;
    Ok(next_steps(agent, names, grove.root.as_slice(), worktree_root))
}

} // verus!
