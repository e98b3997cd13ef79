//! The hook that guards a grove's administration against an agent's tools.
use vstd::prelude::*;
use crate::bytes::{
    copied, lemma_find_bounds, lemma_split_joined, same, split, split_on, views, LF,
};
use crate::text::{digit, text};

verus! {

/// The answer format that an agent's hooks use.
#[derive(Clone, Copy, Debug, PartialEq, Eq, Structural)]
pub enum Protocol {
    ClaudeCompatible,
    Codex,
}

/// How a hook configuration is written.
#[derive(Clone, Copy, Debug, PartialEq, Eq, Structural)]
pub enum Format {
    Json,
    Toml,
}

/// The hook group that one agent is given: what runs before each use of a tool.
#[derive(Debug)]
pub struct HookGroup {
    pub protocol: Protocol,
    pub command: String,
}

pub struct GroupView {
    pub protocol: Protocol,
    pub command: Seq<char>,
}

impl View for HookGroup {
    type V = GroupView;

    open spec fn view(&self) -> GroupView {
        GroupView { protocol: self.protocol, command: self.command@ }
    }
}

pub open spec fn group_for(
    protocol: Protocol,
    protocol_name: Seq<char>,
    executable: Seq<char>,
) -> GroupView {
    GroupView {
        protocol,
        command: executable + " hook-guard --protocol "@ + protocol_name + " PreToolUse"@,
    }
}

impl HookGroup {
    /// The group that runs an executable under a protocol.
    pub fn new(protocol: Protocol, protocol_name: &str, executable: &str) -> (r: HookGroup)
        ensures
            r@ == group_for(protocol, protocol_name@, executable@),
    {
        HookGroup {
            protocol,
            command: text(executable).concat(" hook-guard --protocol ").concat(
                protocol_name,
            ).concat(" PreToolUse"),
        }
    }
}

// -------------------------------------------------------------------- the answer

/// Whether a tool may run.
#[derive(Debug)]
pub enum Verdict {
    Allow,
    /// It must not, and why.
    Deny(String),
}

pub enum VerdictView {
    Allow,
    Deny(Seq<char>),
}

impl View for Verdict {
    type V = VerdictView;

    open spec fn view(&self) -> VerdictView {
        match self {
            Verdict::Allow => VerdictView::Allow,
            Verdict::Deny(reason) => VerdictView::Deny(reason@),
        }
    }
}

/// How one character is written inside a JSON string.
pub open spec fn json_char(c: char) -> Seq<char> {
    if c == '"' {
        seq!['\\', '"']
    } else if c == '\\' {
        seq!['\\', '\\']
    } else if c == '\n' {
        seq!['\\', 'n']
    } else if c == '\r' {
        seq!['\\', 'r']
    } else if c == '\t' {
        seq!['\\', 't']
    } else if c as u32 == 0x08 {
        seq!['\\', 'b']
    } else if c as u32 == 0x0c {
        seq!['\\', 'f']
    } else if (c as u32) < 0x20 {
        seq!['\\', 'u', '0', '0'] + digit(c as int / 16) + digit(c as int % 16)
    } else {
        seq![c]
    }
}

pub open spec fn json_chars(s: Seq<char>) -> Seq<char>
    decreases s.len(),
{
    if s.len() == 0 {
        seq![]
    } else {
        json_chars(s.drop_last()) + json_char(s.last())
    }
}

/// A piece of text as a JSON string.
pub open spec fn json_text(s: Seq<char>) -> Seq<char> {
    seq!['"'] + json_chars(s) + seq!['"']
}

/// Writes a piece of text as a JSON string.
///
/// Trusted: `serde_json::to_string` of a `str`. It puts the text between quotation marks; inside,
/// a quotation mark, a backslash and the characters below `0x20` are escaped, with one letter
/// where JSON has one and as `\u00` and two lower-case digits otherwise, and the rest is written
/// as it is. Writing a string into memory does not fail.
#[verifier::external_body]
pub(crate) fn json_string(s: &str) -> (r: String)
    ensures
        r@ == json_text(s@),
{
    serde_json::to_string(s).unwrap_or_default()
}

/// The members of an answer that tell the verdict.
pub open spec fn verdict_text(v: VerdictView) -> Seq<char> {
    match v {
        VerdictView::Allow => "\"permissionDecision\":\"allow\""@,
        VerdictView::Deny(reason) =>
            "\"permissionDecision\":\"deny\",\"permissionDecisionReason\":"@ + json_text(reason),
    }
}

/// The answer to an agent: one JSON object, and the end of the line.
pub open spec fn response_text(protocol: Protocol, v: VerdictView) -> Seq<char> {
    match protocol {
        Protocol::ClaudeCompatible => "{"@ + verdict_text(v) + "}\n"@,
        Protocol::Codex => "{\"hookSpecificOutput\":{\"hookEventName\":\"PreToolUse\","@
            + verdict_text(v) + "}}\n"@,
    }
}

/// Writes the answer to an agent.
pub fn respond(protocol: Protocol, verdict: &Verdict) -> (r: String)
    ensures
        r@ == response_text(protocol, verdict@),
{
    let told = match verdict {
        Verdict::Allow => text("\"permissionDecision\":\"allow\""),
        Verdict::Deny(reason) => text(
            "\"permissionDecision\":\"deny\",\"permissionDecisionReason\":",
        ).concat(json_string(reason.as_str()).as_str()),
    };
    match protocol {
        Protocol::ClaudeCompatible => text("{").concat(told.as_str()).concat("}\n"),
        Protocol::Codex => text(
            "{\"hookSpecificOutput\":{\"hookEventName\":\"PreToolUse\",",
        ).concat(told.as_str()).concat("}}\n"),
    }
}

/// Whether some text holds no control character, and so no end of a line.
pub open spec fn on_one_line(s: Seq<char>) -> bool {
    forall|i: int| 0 <= i < s.len() ==> #[trigger] s[i] as u32 >= 0x20
}

proof fn lemma_json_on_one_line(s: Seq<char>)
    ensures
        on_one_line(json_chars(s)),
    decreases s.len(),
{
    if s.len() > 0 {
        lemma_json_on_one_line(s.drop_last());
        let c = s.last();
        assert(on_one_line(json_char(c))) by {
            if (c as u32) < 0x20 {
                lemma_digit(c as int / 16);
                lemma_digit(c as int % 16);
            }
        }
    }
}

proof fn lemma_digit(d: int)
    ensures
        on_one_line(digit(d)),
{
    reveal_strlit("0");
    reveal_strlit("1");
    reveal_strlit("2");
    reveal_strlit("3");
    reveal_strlit("4");
    reveal_strlit("5");
    reveal_strlit("6");
    reveal_strlit("7");
    reveal_strlit("8");
    reveal_strlit("9");
    reveal_strlit("a");
    reveal_strlit("b");
    reveal_strlit("c");
    reveal_strlit("d");
    reveal_strlit("e");
    reveal_strlit("f");
}

/// Every answer is one line, whatever the reason for a denial holds: the line ends where the answer
/// does, and nowhere before.
pub proof fn answers_are_one_line(protocol: Protocol, v: VerdictView)
    ensures
        response_text(protocol, v).len() > 0,
        response_text(protocol, v).last() == '\n',
        on_one_line(response_text(protocol, v).drop_last()),
{
    reveal_strlit("\"permissionDecision\":\"allow\"");
    reveal_strlit("\"permissionDecision\":\"deny\",\"permissionDecisionReason\":");
    reveal_strlit("{");
    reveal_strlit("}\n");
    reveal_strlit("{\"hookSpecificOutput\":{\"hookEventName\":\"PreToolUse\",");
    reveal_strlit("}}\n");
    if v is Deny {
        lemma_json_on_one_line(v->Deny_0);
        assert(on_one_line(json_text(v->Deny_0)));
    }
    assert(on_one_line(verdict_text(v)));
    assert(on_one_line("{"@ + verdict_text(v) + "}"@)) by {
        reveal_strlit("}");
    }
    match protocol {
        Protocol::ClaudeCompatible => {
            reveal_strlit("}");
            assert(response_text(protocol, v).drop_last() =~= "{"@ + verdict_text(v) + "}"@);
        },
        Protocol::Codex => {
            let head = "{\"hookSpecificOutput\":{\"hookEventName\":\"PreToolUse\","@;
            assert(on_one_line(head));
            reveal_strlit("}}");
            assert(response_text(protocol, v).drop_last() =~= head + verdict_text(v) + "}}"@);
        },
    }
}

// ------------------------------------------------------------ the exclude file

/// Whether one of the lines is `entry`.
pub open spec fn has_line(contents: Seq<u8>, entry: Seq<u8>) -> bool {
    split(contents, LF).contains(entry)
}

/// An exclude file that holds an entry: as it was if it did already, and otherwise with one more
/// line at its end.
pub open spec fn with_entry(contents: Seq<u8>, entry: Seq<u8>) -> Seq<u8> {
    if has_line(contents, entry) {
        contents
    } else if contents.len() == 0 || contents.last() == LF {
        contents + entry.push(LF)
    } else {
        contents.push(LF) + entry.push(LF)
    }
}

/// Adds an entry to an exclude file, unless it is there already.
pub fn add_exclude_entry(contents: &[u8], entry: &[u8]) -> (r: Vec<u8>)
    ensures
        r@ == with_entry(contents@, entry@),
{
    let lines = split_on(contents, LF);
    let mut i: usize = 0;
    let mut out = copied(contents);
    proof {
        assert(views(lines@).len() == lines@.len());
    }
    while i < lines.len()
        invariant
            i <= lines.len(),
            out@ == contents@,
            views(lines@) == split(contents@, LF),
            views(lines@).len() == lines@.len(),
            forall|j: int| 0 <= j < i ==> views(lines@)[j] != entry@,
        decreases lines.len() - i,
    {
        if same(lines[i].as_slice(), entry) {
            proof {
                assert(split(contents@, LF)[i as int] == entry@);
            }
            return out;
        }
        i = i + 1;
    }
    if contents.len() > 0 && contents[contents.len() - 1] != LF {
        out.push(LF);
    }
    out.extend_from_slice(entry);
    out.push(LF);
    proof {
        assert(!has_line(contents@, entry@));
        assert(out@ =~= with_entry(contents@, entry@));
    }
    out
}

/// Nothing that an exclude file held is lost when an entry is added.
pub proof fn adding_an_entry_keeps_what_was_there(contents: Seq<u8>, entry: Seq<u8>)
    ensures
        contents.len() <= with_entry(contents, entry).len(),
        with_entry(contents, entry).subrange(0, contents.len() as int) == contents,
{
    assert(with_entry(contents, entry).subrange(0, contents.len() as int) =~= contents);
}

/// A line that ends with a line end, at the start or behind one, is among the lines.
proof fn lemma_line_is_found(before: Seq<u8>, entry: Seq<u8>)
    requires
        before.len() == 0 || before.last() == LF,
        !entry.contains(LF),
    ensures
        has_line(before + entry.push(LF), entry),
{
    let none: Seq<u8> = Seq::empty();
    lemma_split_joined(entry, none, LF);
    lemma_find_bounds(entry, LF, 0);
    assert(split(entry, LF) == seq![entry]);
    assert(entry.push(LF) + none =~= entry.push(LF));
    let tail = split(entry.push(LF), LF);
    assert(tail[0] == entry);
    if before.len() == 0 {
        assert(before + entry.push(LF) =~= entry.push(LF));
    } else {
        let head = before.drop_last();
        assert(head.push(LF) =~= before);
        lemma_split_joined(head, entry.push(LF), LF);
        let all = split(before + entry.push(LF), LF);
        assert(all[split(head, LF).len() as int] == entry);
    }
}

/// An entry that was added is one of the lines.
pub proof fn added_entries_are_there(contents: Seq<u8>, entry: Seq<u8>)
    requires
        !entry.contains(LF),
    ensures
        split(with_entry(contents, entry), LF).contains(entry),
{
    if !split(contents, LF).contains(entry) {
        let before = if contents.len() == 0 || contents.last() == LF {
            contents
        } else {
            contents.push(LF)
        };
        assert(with_entry(contents, entry) == before + entry.push(LF));
        lemma_line_is_found(before, entry);
    }
}

/// Adding an entry twice is adding it once.
pub proof fn adding_an_entry_again_changes_nothing(contents: Seq<u8>, entry: Seq<u8>)
    requires
        !entry.contains(LF),
    ensures
        with_entry(with_entry(contents, entry), entry) == with_entry(contents, entry),
{
    if !has_line(contents, entry) {
        let before = if contents.len() == 0 || contents.last() == LF {
            contents
        } else {
            contents.push(LF)
        };
        assert(with_entry(contents, entry) == before + entry.push(LF));
        lemma_line_is_found(before, entry);
    }
}

} // verus!
