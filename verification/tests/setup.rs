//! Which agents there are, where their hooks are configured, and which of them are recorded.
use git_grove::commands::setup::{
    conclude, find_protocol, next_steps, read_policy, register_policy, Agent, AgentNames, POLICY_KEY,
};
use git_grove::git::runner::{GitOutput, RecordingFake};
use git_grove::grove::discover::Grove;
use git_grove::hooks::{add_exclude_entry, Format, HookGroup, Protocol};

/// The agents' names, spelled as their variants are.
fn names() -> AgentNames {
    AgentNames {
        claude: format!("{:?}", Agent::Claude).to_lowercase(),
        claude_title: format!("{:?}", Agent::Claude),
    }
}

fn output(status: i32, stdout: &[u8]) -> GitOutput {
    GitOutput {
        status,
        stdout: stdout.to_vec(),
        stderr: Vec::new(),
    }
}

fn grove() -> Grove {
    Grove::at(b"/g")
}

#[test]
fn claude_and_copilot_converge_on_the_same_target() {
    let names = names();
    assert_eq!(
        Agent::Claude.target(&names).relative_path(),
        Agent::Copilot.target(&names).relative_path()
    );
    assert_eq!(
        Agent::Claude.target(&names).relative_path(),
        format!(".{}/settings.local.json", names.claude).into_bytes()
    );
    assert_eq!(
        Agent::Codex.target(&names).relative_path(),
        b".codex/config.toml"
    );
    assert_eq!(Agent::Claude.target(&names).format, Format::Json);
    assert_eq!(Agent::Codex.target(&names).format, Format::Toml);
}

#[test]
fn exclude_entries_are_anchored_to_the_worktree_root() {
    let names = names();
    assert_eq!(
        Agent::Claude.target(&names).exclude_entry(),
        format!("/.{}/settings.local.json", names.claude).into_bytes()
    );
    assert_eq!(
        Agent::Codex.target(&names).exclude_entry(),
        b"/.codex/config.toml"
    );
}

#[test]
fn policy_values_round_trip_through_every_agent_spelling() {
    let names = names();
    for agent in [Agent::Claude, Agent::Codex, Agent::Copilot] {
        assert_eq!(
            Agent::parse(&names, agent.as_str(&names).as_bytes()),
            Some(agent)
        );
    }
    assert_eq!(Agent::parse(&names, b"gemini"), None);
    assert_eq!(Agent::parse(&names, names.claude_title.as_bytes()), None);
    assert_eq!(Agent::parse(&names, b""), None);
}

#[test]
fn reading_an_empty_policy_yields_no_agents_and_no_complaints() {
    let mut fake = RecordingFake::new();
    fake.push_response(output(1, b""));
    assert_eq!(
        read_policy(&mut fake, &grove(), &names()).unwrap(),
        (Vec::new(), Vec::new())
    );
}

#[test]
fn reading_a_policy_collapses_duplicates_and_reports_unknown_values() {
    let mut fake = RecordingFake::new();
    let recorded = format!("codex\0{}\0codex\0gemini\0", names().claude);
    fake.push_response(output(0, recorded.as_bytes()));
    let (agents, unknown) = read_policy(&mut fake, &grove(), &names()).unwrap();
    assert_eq!(agents, vec![Agent::Claude, Agent::Codex]);
    assert_eq!(unknown, vec!["gemini".to_string()]);
}

#[test]
fn registering_an_already_recorded_agent_writes_nothing() {
    let mut fake = RecordingFake::new();
    fake.push_response(output(0, b"codex\0"));
    register_policy(&mut fake, &grove(), &names(), Agent::Codex).unwrap();
    assert_eq!(fake.calls().len(), 1, "the read is the only call");
}

#[test]
fn registering_a_new_agent_adds_it_without_replacing_the_others() {
    let mut fake = RecordingFake::new();
    fake.push_response(output(0, b"codex\0"));
    fake.push_response(output(0, b""));
    register_policy(&mut fake, &grove(), &names(), Agent::Claude).unwrap();
    let argv = fake.calls().last().unwrap().argv_for_test();
    assert_eq!(
        argv,
        [
            "config",
            "--file",
            "/g/.bare/config",
            "--add",
            POLICY_KEY,
            names().claude.as_str(),
        ]
    );
}

#[test]
fn codex_next_steps_state_the_non_enforcement_without_hedging() {
    let message = next_steps(Agent::Codex, &names(), b"/g", b"/g/topic");
    assert!(message.contains("/g/topic/.codex/config.toml"));
    assert!(message.contains("does not work in a grove today"));
    assert!(message.contains("project_root_markers"));
    assert!(message.contains("Do not rely on\nthis for protection"));
    assert!(message.contains("correct but inert"));
}

#[test]
fn concluding_records_the_agent_and_tells_what_comes_next() {
    let mut fake = RecordingFake::new();
    fake.push_response(output(1, b""));
    let message = conclude(&mut fake, &grove(), &names(), b"/g/topic", Agent::Codex).unwrap();
    assert_eq!(
        message,
        next_steps(Agent::Codex, &names(), b"/g", b"/g/topic")
    );
    assert_eq!(
        fake.calls().last().unwrap().argv_for_test().last().unwrap(),
        "codex"
    );
}

#[test]
fn the_hook_runs_the_guard_with_its_protocol() {
    let group = HookGroup::new(Protocol::Codex, "codex", "/abs/git-grove");
    assert_eq!(
        group.command,
        "/abs/git-grove hook-guard --protocol codex PreToolUse"
    );
    assert_eq!(
        Agent::Codex.group(&names(), "/abs/git-grove").command,
        group.command
    );
}

#[test]
fn an_excluded_entry_is_added_once_and_on_a_line_of_its_own() {
    let once = add_exclude_entry(b"*.o", b"/x");
    assert_eq!(once, b"*.o\n/x\n");
    assert_eq!(add_exclude_entry(&once, b"/x"), once);
    assert_eq!(add_exclude_entry(b"", b"/x"), b"/x\n");
}

#[test]
fn protocols_and_the_link_go_by_the_agents_names() {
    let names = names();
    let shared = format!("{}-compatible", names.claude);
    assert_eq!(find_protocol(&names, b"codex"), Some(Protocol::Codex));
    assert_eq!(find_protocol(&names, shared.as_bytes()), Some(Protocol::ClaudeCompatible));
    assert_eq!(find_protocol(&names, b"gemini"), None);
    let link = format!("{}.md", names.claude.to_uppercase());
    assert_eq!(names.guide_link(), link.as_bytes());
}
